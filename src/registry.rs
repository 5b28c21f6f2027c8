//! Rule registry: declarative cleanup groups and their platform filter.
use vstd::prelude::*;
use crate::discovery::{OsType, os_tag};
use crate::scanner::{join, join_path};

verus! {

/// One OS-scoped path pattern.
#[derive(Debug, Clone)]
pub struct Rule {
    pub os: String,
    pub path: String,
}

/// A named collection of rules sharing a display category.
#[derive(Debug, Clone)]
pub struct Group {
    pub id: String,
    pub name: String,
    pub description: Option<String>,
    pub rules: Vec<Rule>,
}

/// Everything a definition source declares.
#[derive(Debug, Clone)]
pub struct Definitions {
    pub groups: Vec<Group>,
}

/// Why the rule definitions could not be had.
#[derive(Debug, Clone, PartialEq, Eq)]
pub enum ConfigError {
    /// No definition source exists in any search location.
    NotFound,
    /// A source exists but could not be parsed; the parser's message.
    Malformed(String),
}

/// A target before existence is checked: group id (the item's category),
/// group name (its display label), raw path.
pub type TargetView = (Seq<char>, Seq<char>, Seq<char>);

pub open spec fn target_view(t: (String, String, String)) -> TargetView {
    (t.0@, t.1@, t.2@)
}

pub open spec fn targets_view(ts: Seq<(String, String, String)>) -> Seq<TargetView> {
    ts.map_values(|t: (String, String, String)| target_view(t))
}

/// A rule applies to a platform tag when its own tag equals it or is the
/// wildcard `any`.
pub open spec fn rule_applies(rule: Rule, tag: Seq<char>) -> bool {
    rule.os@ == tag || rule.os@ == "any"@
}

/// The targets that the applicable rules among `rules` of group `g` yield,
/// in rule order.
pub open spec fn rule_targets(g: Group, rules: Seq<Rule>, tag: Seq<char>) -> Seq<TargetView>
    decreases rules.len(),
{
    if rules.len() == 0 {
        Seq::empty()
    } else {
        let prev = rule_targets(g, rules.drop_last(), tag);
        if rule_applies(rules.last(), tag) {
            prev.push((g.id@, g.name@, rules.last().path@))
        } else {
            prev
        }
    }
}

/// The targets of a sequence of groups, group by group in source order.
pub open spec fn groups_targets(groups: Seq<Group>, tag: Seq<char>) -> Seq<TargetView>
    decreases groups.len(),
{
    if groups.len() == 0 {
        Seq::empty()
    } else {
        groups_targets(groups.drop_last(), tag) + rule_targets(
            groups.last(),
            groups.last().rules@,
            tag,
        )
    }
}

/// Keeps every rule whose tag is the platform's or the wildcard, in source
/// order, as `(group id, group name, raw path)`. The group id is the item's
/// category; the name is its display label.
pub fn filter_rules(definitions: &Definitions, os_type: &OsType) -> (r: Vec<(String, String, String)>)
    ensures
        targets_view(r@) == groups_targets(definitions.groups@, os_tag(*os_type)),
{
    let tag = os_type.tag();
    let any = "any".to_owned();
    let ghost groups = definitions.groups@;
    let mut out: Vec<(String, String, String)> = Vec::new();
    let mut i: usize = 0;
    while i < definitions.groups.len()
        invariant
            i <= groups.len(),
            groups == definitions.groups@,
            tag@ == os_tag(*os_type),
            any@ == "any"@,
            targets_view(out@) == groups_targets(groups.subrange(0, i as int), tag@),
        decreases groups.len() - i,
    {
        let group = &definitions.groups[i];
        let ghost before = targets_view(out@);
        let mut j: usize = 0;
        while j < group.rules.len()
            invariant
                j <= group.rules@.len(),
                tag@ == os_tag(*os_type),
                any@ == "any"@,
                targets_view(out@) == before + rule_targets(
                    *group,
                    group.rules@.subrange(0, j as int),
                    tag@,
                ),
            decreases group.rules@.len() - j,
        {
            let rule = &group.rules[j];
            let ghost prev = out@;
            if rule.os == tag || rule.os == any {
                out.push((group.id.clone(), group.name.clone(), rule.path.clone()));
                assert(targets_view(out@) =~= targets_view(prev).push(
                    (group.id@, group.name@, rule.path@),
                ));
            }
            assert(group.rules@.subrange(0, j + 1).drop_last() =~= group.rules@.subrange(
                0,
                j as int,
            ));
            j += 1;
        }
        assert(group.rules@.subrange(0, j as int) =~= group.rules@);
        assert(groups.subrange(0, i + 1).drop_last() =~= groups.subrange(0, i as int));
        i += 1;
    }
    assert(groups.subrange(0, i as int) =~= groups);
    out
}

/// The search locations for the definition file, in precedence order: the
/// working directory, then the per-user configuration directory when one is
/// known, then the system-wide share.
pub fn definition_search_paths(config_dir: Option<String>) -> (r: Vec<String>)
    ensures
        match config_dir {
            Some(c) => r@.len() == 3 && r@[0]@ == "definitions.yaml"@
                && r@[1]@ == join_path(c@, "tidytui/definitions.yaml"@)
                && r@[2]@ == "/usr/share/tidytui/definitions.yaml"@,
            None => r@.len() == 2 && r@[0]@ == "definitions.yaml"@
                && r@[1]@ == "/usr/share/tidytui/definitions.yaml"@,
        },
{
    let mut paths: Vec<String> = Vec::new();
    paths.push("definitions.yaml".to_owned());
    match config_dir {
        Some(c) => {
            paths.push(join(c.as_str(), "tidytui/definitions.yaml"));
        },
        None => {},
    }
    paths.push("/usr/share/tidytui/definitions.yaml".to_owned());
    paths
}

/// The first location that exists wins; none existing is `NotFound`.
pub fn select_definition_source(exists: &Vec<bool>) -> (r: Result<usize, ConfigError>)
    ensures
        match r {
            Ok(k) => k < exists@.len() && exists@[k as int] && forall|j: int|
                0 <= j < k ==> !#[trigger] exists@[j],
            Err(e) => e is NotFound && forall|j: int| 0 <= j < exists@.len() ==> !#[trigger] exists@[j],
        },
{
    let mut k: usize = 0;
    while k < exists.len()
        invariant
            k <= exists@.len(),
            forall|j: int| 0 <= j < k ==> !#[trigger] exists@[j],
        decreases exists@.len() - k,
    {
        if exists[k] {
            return Ok(k);
        }
        k += 1;
    }
    Err(ConfigError::NotFound)
}

} // verus!

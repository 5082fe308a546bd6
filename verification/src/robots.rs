//! The rules of a robots.txt file: which paths a crawler of a given name
//! may fetch.

use vstd::prelude::*;
use crate::address::{WebUrl, WebUrlView, resolved, url_view};
use crate::edit::{starts_with, trim, trim_class};
use crate::lines::{lines, split_lines, views};
use crate::text::{
    CharClass, chars_of, contains, find, find_class, first_in, lemma_first_in, lowered,
    matches_here, same_chars, slice_of, string_of, to_lower,
};

verus! {

/// One rule of a robots.txt group.
#[derive(Debug)]
pub struct Rule {
    /// Whether the rule allows; else it disallows.
    pub allow: bool,
    /// The beginning of the paths that the rule is about.
    pub prefix: String,
}

/// A rule as plain data.
pub struct RuleView {
    /// Whether the rule allows; else it disallows.
    pub allow: bool,
    /// The beginning of the paths that the rule is about.
    pub prefix: Seq<char>,
}

impl View for Rule {
    type V = RuleView;

    open spec fn view(&self) -> RuleView {
        RuleView { allow: self.allow, prefix: self.prefix@ }
    }
}

/// The rules as plain data.
pub open spec fn rule_views(rules: Seq<Rule>) -> Seq<RuleView> {
    Seq::new(rules.len(), |i: int| rules[i]@)
}

/// Which groups of the file are read.
#[derive(Clone, Copy, Debug, PartialEq, Eq, Structural)]
pub enum Scope {
    /// The groups that name the crawler.
    Named,
    /// The groups for every crawler.
    Any,
}

/// A line without its comment: the text before the first `#`.
pub open spec fn uncommented(line: Seq<char>) -> Seq<char> {
    match first_in(line, CharClass::Just('#'), 0) {
        Some(k) => line.subrange(0, k),
        None => line,
    }
}

/// The field of a line: the name before the first colon, in lower case,
/// and the value behind it, both trimmed. A line without a colon has none.
pub open spec fn field_of(line: Seq<char>) -> Option<(Seq<char>, Seq<char>)> {
    let body = uncommented(line);
    match first_in(body, CharClass::Just(':'), 0) {
        Some(k) => Some(
            (lowered(trim(body.subrange(0, k))), trim(body.subrange(k + 1, body.len() as int))),
        ),
        None => None,
    }
}

/// The field name `user-agent`.
pub open spec fn agent_field() -> Seq<char> {
    seq!['u', 's', 'e', 'r', '-', 'a', 'g', 'e', 'n', 't']
}

/// The field name `allow`.
pub open spec fn allow_field() -> Seq<char> {
    seq!['a', 'l', 'l', 'o', 'w']
}

/// The field name `disallow`.
pub open spec fn disallow_field() -> Seq<char> {
    seq!['d', 'i', 's', 'a', 'l', 'l', 'o', 'w']
}

/// Whether a `user-agent` value stands for the crawler named `agent`: in
/// the scope `Named`, where it is a part of that name, whatever the case
/// of letters; in the scope `Any`, where it is `*`.
pub open spec fn names_agent(value: Seq<char>, agent: Seq<char>, scope: Scope) -> bool {
    match scope {
        Scope::Named => value.len() > 0 && value != seq!['*'] && contains(
            lowered(agent),
            lowered(value),
        ),
        Scope::Any => value == seq!['*'],
    }
}

/// What is known after reading some lines of the file.
pub struct Scan {
    /// Whether the group being read is one for the crawler.
    pub matching: bool,
    /// Whether the last field read was a `user-agent`.
    pub in_agents: bool,
    /// Whether any group for the crawler was found.
    pub seen: bool,
    /// The rules of the groups for the crawler, in order.
    pub rules: Seq<RuleView>,
}

/// What is known after one more line. A `user-agent` field that does not
/// follow another begins a group; `allow` and `disallow` fields with a
/// value add a rule to a group for the crawler; other lines change nothing.
pub open spec fn scan_line(state: Scan, line: Seq<char>, agent: Seq<char>, scope: Scope) -> Scan {
    match field_of(line) {
        None => state,
        Some((name, value)) => {
            if name == agent_field() {
                let named = names_agent(value, agent, scope);
                Scan {
                    matching: named || (state.in_agents && state.matching),
                    in_agents: true,
                    seen: state.seen || named,
                    rules: state.rules,
                }
            } else if name == allow_field() || name == disallow_field() {
                Scan {
                    in_agents: false,
                    rules: if state.matching && value.len() > 0 {
                        state.rules.push(RuleView { allow: name == allow_field(), prefix: value })
                    } else {
                        state.rules
                    },
                    ..state
                }
            } else {
                state
            }
        },
    }
}

/// What is known after reading the given lines.
pub open spec fn scan(ls: Seq<Seq<char>>, agent: Seq<char>, scope: Scope) -> Scan
    decreases ls.len(),
{
    if ls.len() == 0 {
        Scan { matching: false, in_agents: false, seen: false, rules: Seq::empty() }
    } else {
        scan_line(scan(ls.drop_last(), agent, scope), ls.last(), agent, scope)
    }
}

/// The rules that a robots.txt file holds for the crawler named `agent`:
/// those of the groups that name it, or, where none does, those of the
/// groups for every crawler.
pub open spec fn rules_for(robots: Seq<char>, agent: Seq<char>) -> Seq<RuleView> {
    let named = scan(lines(robots), agent, Scope::Named);
    if named.seen {
        named.rules
    } else {
        scan(lines(robots), agent, Scope::Any).rules
    }
}

/// The length of the longest prefix among the rules of the given kind
/// that `path` begins with; -1 where it begins with none.
pub open spec fn longest(rules: Seq<RuleView>, path: Seq<char>, allow: bool) -> int
    decreases rules.len(),
{
    if rules.len() == 0 {
        -1
    } else {
        let rest = longest(rules.drop_last(), path, allow);
        let rule = rules.last();
        if rule.allow == allow && starts_with(path, rule.prefix) && rule.prefix.len() > rest {
            rule.prefix.len() as int
        } else {
            rest
        }
    }
}

/// Whether the rules let the crawler fetch `path`: the longest rule that
/// the path begins with decides, and of two equally long, the one that
/// allows.
pub open spec fn permits(rules: Seq<RuleView>, path: Seq<char>) -> bool {
    longest(rules, path, true) >= longest(rules, path, false)
}

/// `longest` is the greatest length of a rule of the kind that the path
/// begins with.
pub proof fn lemma_longest(rules: Seq<RuleView>, path: Seq<char>, allow: bool)
    ensures
        longest(rules, path, allow) >= -1,
        forall|i: int|
            0 <= i < rules.len() && (#[trigger] rules[i]).allow == allow && starts_with(
                path,
                rules[i].prefix,
            ) ==> rules[i].prefix.len() <= longest(rules, path, allow),
        longest(rules, path, allow) >= 0 ==> exists|i: int|
            0 <= i < rules.len() && (#[trigger] rules[i]).allow == allow && starts_with(
                path,
                rules[i].prefix,
            ) && rules[i].prefix.len() == longest(rules, path, allow),
    decreases rules.len(),
{
    if rules.len() > 0 {
        let head = rules.drop_last();
        lemma_longest(head, path, allow);
        let rest = longest(head, path, allow);
        let rule = rules.last();
        assert forall|i: int|
            0 <= i < rules.len() && (#[trigger] rules[i]).allow == allow && starts_with(
                path,
                rules[i].prefix,
            ) implies rules[i].prefix.len() <= longest(rules, path, allow) by {
            if i < head.len() {
                assert(rules[i] == head[i]);
            }
        }
        if longest(rules, path, allow) >= 0 {
            if rule.allow == allow && starts_with(path, rule.prefix) && rule.prefix.len() > rest {
                assert(rules[rules.len() - 1] == rule);
            } else {
                let i = choose|i: int|
                    0 <= i < head.len() && (#[trigger] head[i]).allow == allow && starts_with(
                        path,
                        head[i].prefix,
                    ) && head[i].prefix.len() == rest;
                assert(rules[i] == head[i]);
            }
        }
    }
}

/// Where no rule disallows a beginning of the path, the path may be
/// fetched; so it may where there are no rules at all.
pub proof fn lemma_permits_without_disallow(rules: Seq<RuleView>, path: Seq<char>)
    requires
        forall|i: int|
            0 <= i < rules.len() && !(#[trigger] rules[i]).allow ==> !starts_with(
                path,
                rules[i].prefix,
            ),
    ensures
        permits(rules, path),
{
    lemma_longest(rules, path, true);
    lemma_longest(rules, path, false);
}

/// Where the robots.txt file of a site lies: at `/robots.txt` on the
/// host of the seed.
pub open spec fn robots_location(seed: Seq<char>) -> Option<WebUrlView> {
    resolved(seed, "/robots.txt"@)
}

/// The address of the robots.txt file for a crawl that begins at `seed`.
pub fn robots_address(seed: &WebUrl) -> (r: Option<WebUrl>)
    ensures
        url_view(r) == robots_location(seed.href@),
{
    seed.resolve("/robots.txt")
}

/// The field of a line.
fn read_field(line: &Vec<char>) -> (r: Option<(Vec<char>, Vec<char>)>)
    ensures
        match r {
            Some((name, value)) => field_of(line@) == Some((name@, value@)),
            None => field_of(line@) is None,
        },
{
    proof {
        lemma_first_in(line@, CharClass::Just('#'), 0);
    }
    let body = match find_class(line, CharClass::Just('#'), 0) {
        Some(k) => slice_of(line, 0, k),
        None => line.clone(),
    };
    proof {
        lemma_first_in(body@, CharClass::Just(':'), 0);
    }
    match find_class(&body, CharClass::Just(':'), 0) {
        Some(k) => {
            let name = to_lower(&trim_class(&slice_of(&body, 0, k), CharClass::Space));
            let value = trim_class(&slice_of(&body, k + 1, body.len()), CharClass::Space);
            Some((name, value))
        },
        None => None,
    }
}

/// The rules of the groups of the given scope.
fn scan_rules(ls: &Vec<Vec<char>>, agent: &Vec<char>, scope: Scope) -> (r: (bool, Vec<Rule>))
    ensures
        r.0 == scan(views(ls@), agent@, scope).seen,
        rule_views(r.1@) == scan(views(ls@), agent@, scope).rules,
{
    let agent_name: Vec<char> = vec!['u', 's', 'e', 'r', '-', 'a', 'g', 'e', 'n', 't'];
    let allow_name: Vec<char> = vec!['a', 'l', 'l', 'o', 'w'];
    let disallow_name: Vec<char> = vec!['d', 'i', 's', 'a', 'l', 'l', 'o', 'w'];
    let star: Vec<char> = vec!['*'];
    assert(agent_name@ =~= agent_field());
    assert(allow_name@ =~= allow_field());
    assert(disallow_name@ =~= disallow_field());
    assert(star@ =~= seq!['*']);
    let low_agent = to_lower(agent);
    let mut matching = false;
    let mut in_agents = false;
    let mut seen = false;
    let mut rules: Vec<Rule> = Vec::new();
    let mut i: usize = 0;
    assert(views(ls@).take(0) =~= Seq::<Seq<char>>::empty());
    assert(rule_views(rules@) =~= Seq::<RuleView>::empty());
    while i < ls.len()
        invariant
            i <= ls.len(),
            agent_name@ == agent_field(),
            allow_name@ == allow_field(),
            disallow_name@ == disallow_field(),
            star@ == seq!['*'],
            low_agent@ == lowered(agent@),
            scan(views(ls@).take(i as int), agent@, scope) == (Scan {
                matching,
                in_agents,
                seen,
                rules: rule_views(rules@),
            }),
        decreases ls.len() - i,
    {
        let ghost before = rule_views(rules@);
        proof {
            let next = views(ls@).take(i + 1);
            assert(next.drop_last() =~= views(ls@).take(i as int));
            assert(next.last() == ls@[i as int]@);
        }
        if let Some((name, value)) = read_field(&ls[i]) {
            if same_chars(&name, &agent_name) {
                let named = match scope {
                    Scope::Named => value.len() > 0 && !same_chars(&value, &star) && find(
                        &low_agent,
                        &to_lower(&value),
                        0,
                    ).is_some(),
                    Scope::Any => same_chars(&value, &star),
                };
                matching = named || (in_agents && matching);
                in_agents = true;
                seen = seen || named;
            } else {
                let allows = same_chars(&name, &allow_name);
                if allows || same_chars(&name, &disallow_name) {
                    in_agents = false;
                    if matching && value.len() > 0 {
                        let rule = Rule { allow: allows, prefix: string_of(&value) };
                        rules.push(rule);
                        assert(rule_views(rules@) =~= before.push(rule@));
                    }
                }
            }
        }
        i += 1;
    }
    assert(views(ls@).take(ls.len() as int) =~= views(ls@));
    (seen, rules)
}

/// The rules that a robots.txt file holds for the crawler named `agent`.
pub fn parse_robots(robots: &str, agent: &str) -> (rules: Vec<Rule>)
    ensures
        rule_views(rules@) == rules_for(robots@, agent@),
{
    let ls = split_lines(&chars_of(robots));
    let name = chars_of(agent);
    let (seen, named) = scan_rules(&ls, &name, Scope::Named);
    if seen {
        named
    } else {
        scan_rules(&ls, &name, Scope::Any).1
    }
}

/// A length found by a search, as a number: -1 where none was found.
pub open spec fn length_or_none(found: Option<usize>) -> int {
    match found {
        Some(n) => n as int,
        None => -1,
    }
}

/// The length of the longest prefix among the rules of the given kind
/// that `path` begins with.
fn longest_match(rules: &Vec<Rule>, path: &Vec<char>, allow: bool) -> (r: Option<usize>)
    ensures
        length_or_none(r) == longest(rule_views(rules@), path@, allow),
{
    let mut best: Option<usize> = None;
    let mut i: usize = 0;
    assert(rule_views(rules@).take(0) =~= Seq::<RuleView>::empty());
    while i < rules.len()
        invariant
            i <= rules.len(),
            length_or_none(best) == longest(rule_views(rules@).take(i as int), path@, allow),
        decreases rules.len() - i,
    {
        proof {
            let next = rule_views(rules@).take(i + 1);
            assert(next.drop_last() =~= rule_views(rules@).take(i as int));
            assert(next.last() == rules@[i as int]@);
        }
        if rules[i].allow == allow {
            let prefix = chars_of(rules[i].prefix.as_str());
            let longer = match best {
                Some(n) => prefix.len() > n,
                None => true,
            };
            if longer && matches_here(path, &prefix, 0) {
                best = Some(prefix.len());
            }
        }
        i += 1;
    }
    assert(rule_views(rules@).take(rules.len() as int) =~= rule_views(rules@));
    best
}

/// Whether the rules let the crawler fetch `path`.
pub fn allows_path(rules: &Vec<Rule>, path: &str) -> (r: bool)
    ensures
        r == permits(rule_views(rules@), path@),
{
    let text = chars_of(path);
    match (longest_match(rules, &text, true), longest_match(rules, &text, false)) {
        (_, None) => true,
        (None, Some(_)) => false,
        (Some(a), Some(d)) => a >= d,
    }
}

} // verus!

//! Rules: which one applies to a process, and how grouping a process changes them.
use crate::model::{text_option, views, KnownProcess, KnownView, Rule, RuleAction, RuleView};
use crate::text::{
    chars_of, contained_text_has_a_place, contains_text, ends_with_text, lowercase, replace_char,
    replaced, same_text, text_contains, text_of,
};
use vstd::prelude::*;
use vstd::string::*;

verus! {

// ---------------------------------------------------------------------------------------------
// Matching
// ---------------------------------------------------------------------------------------------

/// A rule's pattern covers a process name, in any case: `*` and an ending covers the names that
/// end so, every other pattern the name itself.
pub open spec fn pattern_matches(pattern: Seq<char>, name: Seq<char>) -> bool {
    if pattern.len() > 0 && pattern[0] == '*' {
        lowercase(pattern.skip(1)).is_suffix_of(lowercase(name))
    } else {
        lowercase(pattern) == lowercase(name)
    }
}

/// The first rule that covers a process name.
pub open spec fn first_match(rules: Seq<RuleView>, name: Seq<char>) -> Option<RuleView>
    decreases rules.len(),
{
    if rules.len() == 0 {
        None
    } else if pattern_matches(rules[0].process_name, name) {
        Some(rules[0])
    } else {
        first_match(rules.drop_first(), name)
    }
}

/// What a pattern in lower case, without its `*`, says of a name in lower case.
pub fn match_lowered(wildcard: bool, pattern: &str, name: &str) -> (r: bool)
    ensures
        r == (if wildcard {
            pattern@.is_suffix_of(name@)
        } else {
            pattern@ == name@
        }),
{
    if wildcard {
        ends_with_text(name, pattern)
    } else {
        same_text(pattern, name)
    }
}

/// Whether a rule's pattern covers a process name.
pub fn match_wildcard(pattern: &str, name: &str) -> (r: bool)
    ensures
        r == pattern_matches(pattern@, name@),
{
    let p = chars_of(pattern);
    let lower = name.to_lowercase();
    if p.len() > 0 && p[0] == '*' {
        let ending = text_of(&p, 1, p.len());
        assert(p@.subrange(1, p@.len() as int) =~= p@.skip(1));
        let low_ending = ending.as_str().to_lowercase();
        match_lowered(true, low_ending.as_str(), lower.as_str())
    } else {
        let low_pattern = pattern.to_lowercase();
        match_lowered(false, low_pattern.as_str(), lower.as_str())
    }
}

/// The position of the first rule that covers a process name.
pub fn find_rule(rules: &Vec<Rule>, name: &str) -> (r: Option<usize>)
    ensures
        match r {
            Some(i) => i < rules@.len() && first_match(views(rules@), name@) == Some(rules@[i as int]@),
            None => first_match(views(rules@), name@) is None,
        },
{
    let n: usize = rules.len();
    let ghost all = views(rules@);
    let mut i: usize = 0;
    assert(all.skip(0) =~= all);
    while i < n
        invariant
            i <= n == rules@.len(),
            all == views(rules@),
            first_match(all, name@) == first_match(all.skip(i as int), name@),
        decreases n - i,
    {
        if match_wildcard(rules[i].process_name.as_str(), name) {
            return Some(i);
        }
        assert(all.skip(i as int).drop_first() =~= all.skip(i + 1));
        i += 1;
    }
    None
}

/// The first match is a rule that covers the name while none before it does, and there is none
/// exactly where no rule covers the name.
pub proof fn first_match_is_first(rules: Seq<RuleView>, name: Seq<char>)
    ensures
        match first_match(rules, name) {
            Some(rule) => exists|i: int|
                0 <= i < rules.len() && #[trigger] rules[i] == rule && pattern_matches(
                    rule.process_name,
                    name,
                ) && forall|j: int|
                    0 <= j < i ==> !pattern_matches((#[trigger] rules[j]).process_name, name),
            None => forall|j: int|
                0 <= j < rules.len() ==> !pattern_matches((#[trigger] rules[j]).process_name, name),
        },
    decreases rules.len(),
{
    if rules.len() > 0 && !pattern_matches(rules[0].process_name, name) {
        let rest = rules.drop_first();
        first_match_is_first(rest, name);
        match first_match(rest, name) {
            Some(rule) => {
                let i = choose|i: int|
                    0 <= i < rest.len() && #[trigger] rest[i] == rule && pattern_matches(
                        rule.process_name,
                        name,
                    ) && forall|j: int|
                        0 <= j < i ==> !pattern_matches((#[trigger] rest[j]).process_name, name);
                assert(rules[i + 1] == rule);
                assert forall|j: int| 0 <= j < i + 1 implies !pattern_matches(
                    (#[trigger] rules[j]).process_name,
                    name,
                ) by {
                    if j > 0 {
                        assert(rest[j - 1] == rules[j]);
                    }
                }
            },
            None => {
                assert forall|j: int| 0 <= j < rules.len() implies !pattern_matches(
                    (#[trigger] rules[j]).process_name,
                    name,
                ) by {
                    if j > 0 {
                        assert(rest[j - 1] == rules[j]);
                    }
                }
            },
        }
    } else if rules.len() > 0 {
        assert(rules[0] == first_match(rules, name)->0);
    }
}

/// Whether a rule covers a name does not depend on the case in which the name is written.
pub proof fn match_ignores_case(rules: Seq<RuleView>, a: Seq<char>, b: Seq<char>)
    requires
        lowercase(a) == lowercase(b),
    ensures
        first_match(rules, a) == first_match(rules, b),
    decreases rules.len(),
{
    if rules.len() > 0 {
        match_ignores_case(rules.drop_first(), a, b);
    }
}

/// A process name in lower case that belongs to this program itself.
pub open spec fn own_name(lower: Seq<char>) -> bool {
    text_contains(lower, "appproxybridge"@) || text_contains(lower, "proxier"@)
}

/// The process is one that the engine leaves alone: itself, or one it could not identify.
pub open spec fn excluded_process(name: Seq<char>) -> bool {
    name == "Unknown"@ || own_name(lowercase(name))
}

/// Whether a process name in lower case belongs to this program itself.
pub fn is_own_name(lower: &str) -> (r: bool)
    ensures
        r == own_name(lower@),
{
    contains_text(lower, "appproxybridge") || contains_text(lower, "proxier")
}

/// Whether the process is one that the engine leaves alone.
pub fn is_excluded_process(name: &str) -> (r: bool)
    ensures
        r == excluded_process(name@),
{
    if same_text(name, "Unknown") {
        return true;
    }
    let lower = name.to_lowercase();
    is_own_name(lower.as_str())
}

// ---------------------------------------------------------------------------------------------
// Groups
// ---------------------------------------------------------------------------------------------

/// The group to which an action assigns a process.
pub open spec fn group_of(action: RuleAction) -> Seq<char> {
    match action {
        RuleAction::Proxy => "proxy"@,
        RuleAction::Direct => "direct"@,
        RuleAction::Block => "block"@,
    }
}

/// A known process with the group and proxy that the rules give it.
pub open spec fn grouped(p: KnownView, rules: Seq<RuleView>) -> KnownView {
    match first_match(rules, p.process_name) {
        Some(rule) => KnownView {
            group_action: group_of(rule.action),
            proxy_id: rule.proxy_id,
            ..p
        },
        None => KnownView { group_action: "new"@, proxy_id: None, ..p },
    }
}

/// The known processes, each with the group and proxy that the rules give it.
pub fn get_known_processes(known: Vec<KnownProcess>, rules: &Vec<Rule>) -> (r: Vec<KnownProcess>)
    ensures
        r@.len() == known@.len(),
        forall|i: int| 0 <= i < r@.len() ==> #[trigger] r@[i]@ == grouped(known@[i]@, views(rules@)),
{
    let n: usize = known.len();
    let mut r: Vec<KnownProcess> = Vec::new();
    let mut i: usize = 0;
    while i < n
        invariant
            i <= n == known@.len(),
            r@.len() == i,
            forall|j: int| 0 <= j < i ==> #[trigger] r@[j]@ == grouped(known@[j]@, views(rules@)),
        decreases n - i,
    {
        let p = &known[i];
        let (group_action, proxy_id) = match find_rule(rules, p.process_name.as_str()) {
            Some(k) => (
                match rules[k].action {
                    RuleAction::Proxy => "proxy".to_string(),
                    RuleAction::Direct => "direct".to_string(),
                    RuleAction::Block => "block".to_string(),
                },
                rules[k].proxy_id.clone(),
            ),
            None => ("new".to_string(), None),
        };
        let q = KnownProcess {
            process_name: p.process_name.clone(),
            group_action,
            proxy_id,
            created_at: p.created_at,
        };
        assert(q@ == grouped(known@[i as int]@, views(rules@)));
        r.push(q);
        i += 1;
    }
    r
}

/// Grouping does not depend on the group a process had before, so that doing it again changes
/// nothing.
pub proof fn grouping_is_idempotent(p: KnownView, rules: Seq<RuleView>)
    ensures
        grouped(grouped(p, rules), rules) == grouped(p, rules),
{
}

/// When a process of this name, in any case, was first seen, or `now` where none was.
pub open spec fn first_seen(known: Seq<KnownView>, name: Seq<char>, now: u64) -> u64
    decreases known.len(),
{
    if known.len() == 0 {
        now
    } else if lowercase(known[0].process_name) == lowercase(name) {
        known[0].created_at
    } else {
        first_seen(known.drop_first(), name, now)
    }
}

/// When a process of this name, in any case, was first seen, or `now` where none was.
fn first_seen_at(known: &Vec<KnownProcess>, process_name: &str, now: u64) -> (r: u64)
    ensures
        r == first_seen(views(known@), process_name@, now),
{
    let lower = process_name.to_lowercase();
    let n: usize = known.len();
    let ghost all = views(known@);
    let mut i: usize = 0;
    assert(all.skip(0) =~= all);
    while i < n
        invariant
            i <= n == known@.len(),
            all == views(known@),
            lower@ == lowercase(process_name@),
            first_seen(all, process_name@, now) == first_seen(
                all.skip(i as int),
                process_name@,
                now,
            ),
        decreases n - i,
    {
        let other = known[i].process_name.as_str().to_lowercase();
        if other == lower {
            return known[i].created_at;
        }
        assert(all.skip(i as int).drop_first() =~= all.skip(i + 1));
        i += 1;
    }
    now
}

/// The entry to store for a process that is put in a group: it keeps the time at which the
/// process was first seen.
pub fn grouped_process(
    process_name: &str,
    group_action: &str,
    proxy_id: &Option<String>,
    known: &Vec<KnownProcess>,
    now: u64,
) -> (r: KnownProcess)
    ensures
        r.process_name@ == process_name@,
        r.group_action@ == group_action@,
        text_option(r.proxy_id) == text_option(*proxy_id),
        r.created_at == first_seen(views(known@), process_name@, now),
{
    KnownProcess {
        process_name: process_name.to_string(),
        group_action: group_action.to_string(),
        proxy_id: proxy_id.clone(),
        created_at: first_seen_at(known, process_name, now),
    }
}

/// The rules that name another process, in any case.
pub open spec fn rules_of_others(rules: Seq<RuleView>, name: Seq<char>) -> Seq<RuleView>
    decreases rules.len(),
{
    if rules.len() == 0 {
        Seq::empty()
    } else {
        let rest = rules_of_others(rules.drop_last(), name);
        if lowercase(rules.last().process_name) == lowercase(name) {
            rest
        } else {
            rest.push(rules.last())
        }
    }
}

/// The action for which a group stands; the group `new`, and every other text, has none.
pub open spec fn group_action_of(group: Seq<char>) -> Option<RuleAction> {
    if group == "proxy"@ {
        Some(RuleAction::Proxy)
    } else if group == "block"@ {
        Some(RuleAction::Block)
    } else if group == "direct"@ {
        Some(RuleAction::Direct)
    } else {
        None
    }
}

/// The rule that puts a process in a group: only the group `proxy` binds a proxy. The
/// identifier is made from the name in lower case.
pub open spec fn group_rule_view(
    lower: Seq<char>,
    name: Seq<char>,
    group: Seq<char>,
    proxy_id: Option<Seq<char>>,
) -> Option<RuleView> {
    match group_action_of(group) {
        Some(action) => Some(
            RuleView {
                id: "auto-"@ + replaced(lower, '.', '-'),
                process_name: name,
                action,
                proxy_id: if action == RuleAction::Proxy {
                    proxy_id
                } else {
                    None
                },
            },
        ),
        None => None,
    }
}

/// The rules after a process was put in a group: those of the other processes, and behind them
/// the one that stands for the group.
pub open spec fn regrouped(
    rules: Seq<RuleView>,
    name: Seq<char>,
    group: Seq<char>,
    proxy_id: Option<Seq<char>>,
) -> Seq<RuleView> {
    let kept = rules_of_others(rules, name);
    match group_rule_view(lowercase(name), name, group, proxy_id) {
        Some(rule) => kept.push(rule),
        None => kept,
    }
}

/// The action for which a group stands.
pub fn parse_group(group: &str) -> (r: Option<RuleAction>)
    ensures
        r == group_action_of(group@),
{
    if same_text(group, "proxy") {
        Some(RuleAction::Proxy)
    } else if same_text(group, "block") {
        Some(RuleAction::Block)
    } else if same_text(group, "direct") {
        Some(RuleAction::Direct)
    } else {
        None
    }
}

/// The rule that puts the process `name`, in lower case `lower`, in a group.
pub fn group_rule(lower: &str, name: &str, group: &str, proxy_id: &Option<String>) -> (r: Option<
    Rule,
>)
    ensures
        (match r {
            Some(rule) => Some(rule@),
            None => None,
        }) == group_rule_view(lower@, name@, group@, text_option(*proxy_id)),
{
    match parse_group(group) {
        Some(action) => {
            let mut id = "auto-".to_string();
            let tail = replace_char(lower, '.', '-');
            id.append(tail.as_str());
            let bound = match action {
                RuleAction::Proxy => proxy_id.clone(),
                _ => None,
            };
            Some(Rule { id, process_name: name.to_string(), action, proxy_id: bound })
        },
        None => None,
    }
}

/// The rules after a process was put in a group.
pub fn set_process_group(
    rules: Vec<Rule>,
    process_name: &str,
    group_action: &str,
    proxy_id: &Option<String>,
) -> (r: Vec<Rule>)
    ensures
        views(r@) == regrouped(
            views(rules@),
            process_name@,
            group_action@,
            text_option(*proxy_id),
        ),
{
    let lower = process_name.to_lowercase();
    let n: usize = rules.len();
    let ghost all = views(rules@);
    let mut kept: Vec<Rule> = Vec::new();
    let mut i: usize = 0;
    assert(views(kept@) =~= rules_of_others(all.take(0), process_name@));
    while i < n
        invariant
            i <= n == rules@.len(),
            all == views(rules@),
            lower@ == lowercase(process_name@),
            views(kept@) == rules_of_others(all.take(i as int), process_name@),
        decreases n - i,
    {
        assert(all.take(i + 1).drop_last() =~= all.take(i as int));
        let other = rules[i].process_name.as_str().to_lowercase();
        if other != lower {
            let rule = rules[i].clone();
            let ghost before = kept@;
            kept.push(rule);
            assert(views(kept@) =~= views(before).push(rule@));
        }
        i += 1;
    }
    assert(all.take(n as int) =~= all);
    match group_rule(lower.as_str(), process_name, group_action, proxy_id) {
        Some(rule) => {
            let ghost before = kept@;
            kept.push(rule);
            assert(views(kept@) =~= views(before).push(rule@));
        },
        None => {},
    }
    kept
}

/// What the user is told once a process was put in a group.
pub fn group_message(process_name: &str, group_action: &str) -> (r: String)
    ensures
        r@ == "Process "@ + process_name@ + " set to group "@ + group_action@,
{
    let mut s = "Process ".to_string();
    s.append(process_name);
    s.append(" set to group ");
    s.append(group_action);
    s
}

/// None of the rules of others names the process.
proof fn others_do_not_name(rules: Seq<RuleView>, name: Seq<char>)
    ensures
        forall|i: int|
            0 <= i < rules_of_others(rules, name).len() ==> lowercase(
                (#[trigger] rules_of_others(rules, name)[i]).process_name,
            ) != lowercase(name),
    decreases rules.len(),
{
    if rules.len() > 0 {
        others_do_not_name(rules.drop_last(), name);
    }
}

/// Where no rule names the process, all of them are rules of others.
proof fn others_are_all(rules: Seq<RuleView>, name: Seq<char>)
    requires
        forall|i: int|
            0 <= i < rules.len() ==> lowercase((#[trigger] rules[i]).process_name) != lowercase(
                name,
            ),
    ensures
        rules_of_others(rules, name) == rules,
    decreases rules.len(),
{
    if rules.len() > 0 {
        let front = rules.drop_last();
        assert forall|i: int| 0 <= i < front.len() implies lowercase(
            (#[trigger] front[i]).process_name,
        ) != lowercase(name) by {
            assert(front[i] == rules[i]);
        }
        others_are_all(front, name);
        assert(lowercase(rules[rules.len() - 1].process_name) != lowercase(name));
        assert(rules =~= front.push(rules.last()));
    } else {
        assert(rules_of_others(rules, name) =~= rules);
    }
}

/// After a process was put in a group, at most one rule names it, in any case: the last one,
/// with the action of the group; and none where the group has no action.
pub proof fn one_rule_per_process(
    rules: Seq<RuleView>,
    name: Seq<char>,
    group: Seq<char>,
    proxy_id: Option<Seq<char>>,
)
    ensures
        ({
            let after = regrouped(rules, name, group, proxy_id);
            &&& forall|i: int|
                0 <= i < after.len() && lowercase((#[trigger] after[i]).process_name) == lowercase(
                    name,
                ) ==> i == after.len() - 1 && group_action_of(group) == Some(after[i].action)
            &&& group_action_of(group) is Some ==> after.len() > 0 && after.last().process_name
                == name
        }),
{
    others_do_not_name(rules, name);
}

/// Putting a process in a group once more leaves the rules as the last time made them, whatever
/// group it was in before.
pub proof fn last_group_wins(
    rules: Seq<RuleView>,
    name: Seq<char>,
    first: Seq<char>,
    first_proxy: Option<Seq<char>>,
    second: Seq<char>,
    second_proxy: Option<Seq<char>>,
)
    ensures
        regrouped(regrouped(rules, name, first, first_proxy), name, second, second_proxy)
            == regrouped(rules, name, second, second_proxy),
{
    let kept = rules_of_others(rules, name);
    others_do_not_name(rules, name);
    others_are_all(kept, name);
    match group_rule_view(lowercase(name), name, first, first_proxy) {
        Some(rule) => {
            assert(kept.push(rule).drop_last() =~= kept);
        },
        None => {},
    }
}

/// Putting a process in a group keeps the rules of the other processes, in their order.
pub proof fn other_rules_stay(
    rules: Seq<RuleView>,
    name: Seq<char>,
    group: Seq<char>,
    proxy_id: Option<Seq<char>>,
)
    ensures
        rules_of_others(regrouped(rules, name, group, proxy_id), name) == rules_of_others(
            rules,
            name,
        ),
{
    let kept = rules_of_others(rules, name);
    others_do_not_name(rules, name);
    others_are_all(kept, name);
    match group_rule_view(lowercase(name), name, group, proxy_id) {
        Some(rule) => {
            assert(kept.push(rule).drop_last() =~= kept);
        },
        None => {},
    }
}

/// A pattern of `*` and an ending covers exactly the names that have something before that ending,
/// both in lower case; every other pattern covers exactly the names that are the same in lower
/// case.
pub proof fn patterns_cover_names(pattern: Seq<char>, name: Seq<char>)
    ensures
        pattern_matches(seq!['*'] + pattern, name) <==> exists|before: Seq<char>|
            lowercase(name) == #[trigger] (before + lowercase(pattern)),
        !seq!['*'].is_prefix_of(pattern) ==> (pattern_matches(pattern, name) <==> lowercase(pattern)
            == lowercase(name)),
        !seq!['*'].is_prefix_of(name) ==> pattern_matches(name, name),
        pattern_matches(seq!['*'] + name, name),
{
    let star = seq!['*'] + pattern;
    let low = lowercase(pattern);
    let whole = lowercase(name);
    assert(star.skip(1) =~= pattern);
    if pattern_matches(star, name) {
        let before = whole.take(whole.len() - low.len());
        assert(low == whole.subrange(whole.len() - low.len(), whole.len() as int));
        assert(whole =~= before + low);
    }
    if exists|before: Seq<char>| whole == #[trigger] (before + low) {
        let before = choose|before: Seq<char>| whole == #[trigger] (before + low);
        assert(whole.subrange(whole.len() - low.len(), whole.len() as int) =~= low);
    }
    if pattern.len() > 0 && pattern[0] == '*' {
        assert(pattern.subrange(0, 1) =~= seq!['*']);
    }
    if name.len() > 0 && name[0] == '*' {
        assert(name.subrange(0, 1) =~= seq!['*']);
    }
    assert((seq!['*'] + name).skip(1) =~= name);
    assert(whole.subrange(0, whole.len() as int) =~= whole);
}

/// The rule at a place applies where it covers the name and none before it does; and none applies
/// where none covers the name.
pub proof fn first_covering_rule_applies(rules: Seq<RuleView>, name: Seq<char>, i: int)
    requires
        0 <= i <= rules.len(),
        forall|j: int| 0 <= j < i ==> !pattern_matches((#[trigger] rules[j]).process_name, name),
        i < rules.len() ==> pattern_matches(rules[i].process_name, name),
    ensures
        first_match(rules, name) == (if i < rules.len() {
            Some(rules[i])
        } else {
            None
        }),
    decreases rules.len(),
{
    if rules.len() > 0 && i > 0 {
        let rest = rules.drop_first();
        assert(!pattern_matches(rules[0].process_name, name));
        assert forall|j: int| 0 <= j < i - 1 implies !pattern_matches(
            (#[trigger] rest[j]).process_name,
            name,
        ) by {
            assert(rest[j] == rules[j + 1]);
        }
        first_covering_rule_applies(rest, name, i - 1);
    }
}

/// What stands behind the rule that applies does not matter, nor does a rule before it that does
/// not cover the name.
pub proof fn only_the_first_rule_counts(
    before: Seq<RuleView>,
    rule: RuleView,
    behind: Seq<RuleView>,
    name: Seq<char>,
)
    requires
        forall|j: int|
            0 <= j < before.len() ==> !pattern_matches((#[trigger] before[j]).process_name, name),
        pattern_matches(rule.process_name, name),
    ensures
        first_match(before.push(rule) + behind, name) == Some(rule),
{
    let rules = before.push(rule) + behind;
    assert forall|j: int| 0 <= j < before.len() implies !pattern_matches(
        (#[trigger] rules[j]).process_name,
        name,
    ) by {
        assert(rules[j] == before[j]);
    }
    first_covering_rule_applies(rules, name, before.len() as int);
}

/// A process is left alone exactly where it could not be identified, or its name in lower case is
/// one of the two names of this program with something before and behind it.
pub proof fn own_and_unknown_processes_are_excluded(name: Seq<char>)
    ensures
        excluded_process(name) <==> name == "Unknown"@ || (exists|a: Seq<char>, b: Seq<char>|
            lowercase(name) == #[trigger] (a + "appproxybridge"@ + b)) || (exists|
            a: Seq<char>,
            b: Seq<char>,
        |
            lowercase(name) == #[trigger] (a + "proxier"@ + b)),
{
    contained_text_has_a_place(lowercase(name), "appproxybridge"@);
    contained_text_has_a_place(lowercase(name), "proxier"@);
}

/// A known process has the group and the proxy of the first rule that covers it, and is new where
/// none does; its name and the time at which it was first seen stay.
pub proof fn group_follows_the_first_rule(p: KnownView, rules: Seq<RuleView>, i: int)
    requires
        0 <= i <= rules.len(),
        forall|j: int|
            0 <= j < i ==> !pattern_matches((#[trigger] rules[j]).process_name, p.process_name),
        i < rules.len() ==> pattern_matches(rules[i].process_name, p.process_name),
    ensures
        ({
            let g = grouped(p, rules);
            &&& g.process_name == p.process_name
            &&& g.created_at == p.created_at
            &&& i < rules.len() ==> {
                &&& g.proxy_id == rules[i].proxy_id
                &&& rules[i].action is Proxy ==> g.group_action == "proxy"@
                &&& rules[i].action is Direct ==> g.group_action == "direct"@
                &&& rules[i].action is Block ==> g.group_action == "block"@
            }
            &&& i == rules.len() ==> g.group_action == "new"@ && g.proxy_id is None
        }),
{
    first_covering_rule_applies(rules, p.process_name, i);
}

/// The time at which a process was first seen is that of the first entry with its name in any
/// case, and the present time where there is none.
pub proof fn first_entry_gives_the_time(
    known: Seq<KnownView>,
    name: Seq<char>,
    now: u64,
    i: int,
)
    requires
        0 <= i <= known.len(),
        forall|j: int|
            0 <= j < i ==> lowercase((#[trigger] known[j]).process_name) != lowercase(name),
        i < known.len() ==> lowercase(known[i].process_name) == lowercase(name),
    ensures
        first_seen(known, name, now) == (if i < known.len() {
            known[i].created_at
        } else {
            now
        }),
    decreases known.len(),
{
    if known.len() > 0 && i > 0 {
        let rest = known.drop_first();
        assert(lowercase(known[0].process_name) != lowercase(name));
        assert forall|j: int| 0 <= j < i - 1 implies lowercase((#[trigger] rest[j]).process_name)
            != lowercase(name) by {
            assert(rest[j] == known[j + 1]);
        }
        first_entry_gives_the_time(rest, name, now, i - 1);
    }
}

/// The rules of others are all the rules whose name in lower case differs, as they are, in their
/// order and as often as before.
proof fn others_are_filtered(rules: Seq<RuleView>, name: Seq<char>)
    ensures
        rules_of_others(rules, name) == rules.filter(
            |r: RuleView| lowercase(r.process_name) != lowercase(name),
        ),
    decreases rules.len(),
{
    reveal(Seq::filter);
    if rules.len() > 0 {
        others_are_filtered(rules.drop_last(), name);
    }
}

/// Putting a process in a group keeps every rule whose name in lower case differs from that of
/// the process, in their order and as often as before, drops every other one, and puts behind
/// them one rule for the process where the group is `proxy`, `block` or `direct`. That rule names
/// the process, has the action of the group, and is bound to the proxy in the group `proxy`
/// alone.
pub proof fn grouping_replaces_the_rules_of_the_process(
    rules: Seq<RuleView>,
    name: Seq<char>,
    group: Seq<char>,
    proxy_id: Option<Seq<char>>,
)
    ensures
        ({
            let after = regrouped(rules, name, group, proxy_id);
            let kept = rules.filter(|r: RuleView| lowercase(r.process_name) != lowercase(name));
            let acts = group == "proxy"@ || group == "block"@ || group == "direct"@;
            &&& !acts ==> after == kept
            &&& acts ==> {
                &&& after.len() == kept.len() + 1
                &&& after.drop_last() == kept
                &&& after.last().process_name == name
                &&& after.last().id == "auto-"@ + replaced(lowercase(name), '.', '-')
            }
            &&& group == "proxy"@ ==> after.last().action is Proxy && after.last().proxy_id
                == proxy_id
            &&& group == "block"@ ==> after.last().action is Block && after.last().proxy_id is None
            &&& group == "direct"@ ==> after.last().action is Direct && after.last().proxy_id
                is None
        }),
{
    others_are_filtered(rules, name);
    reveal_strlit("proxy");
    reveal_strlit("block");
    reveal_strlit("direct");
    assert("proxy"@[0] == 'p' && "block"@[0] == 'b' && "direct"@[0] == 'd');
    let after = regrouped(rules, name, group, proxy_id);
    let kept = rules_of_others(rules, name);
    if group_action_of(group) is Some {
        assert(after.drop_last() =~= kept);
    }
}

/// A rule of another process is there after a process was put in a group exactly where it was
/// there before.
pub proof fn rules_of_others_are_kept(
    rules: Seq<RuleView>,
    name: Seq<char>,
    group: Seq<char>,
    proxy_id: Option<Seq<char>>,
    rule: RuleView,
)
    requires
        lowercase(rule.process_name) != lowercase(name),
    ensures
        rules.contains(rule) <==> regrouped(rules, name, group, proxy_id).contains(rule),
        rules.to_multiset().count(rule) == regrouped(
            rules,
            name,
            group,
            proxy_id,
        ).to_multiset().count(rule),
{
    let after = regrouped(rules, name, group, proxy_id);
    let kept = rules_of_others(rules, name);
    count_of_others(rules, name, rule);
    match group_rule_view(lowercase(name), name, group, proxy_id) {
        Some(own) => {
            vstd::seq_lib::to_multiset_build(kept, own);
        },
        None => {},
    }
    rules.to_multiset_ensures();
    after.to_multiset_ensures();
    assert(rules.contains(rule) <==> rules.to_multiset().count(rule) > 0);
    assert(after.contains(rule) <==> after.to_multiset().count(rule) > 0);
}

/// A rule of another process is among the rules of others as often as among all.
proof fn count_of_others(rules: Seq<RuleView>, name: Seq<char>, rule: RuleView)
    requires
        lowercase(rule.process_name) != lowercase(name),
    ensures
        rules_of_others(rules, name).to_multiset().count(rule) == rules.to_multiset().count(rule),
    decreases rules.len(),
{
    if rules.len() > 0 {
        let front = rules.drop_last();
        count_of_others(front, name, rule);
        vstd::seq_lib::to_multiset_build(front, rules.last());
        assert(front.push(rules.last()) =~= rules);
        vstd::seq_lib::to_multiset_build(rules_of_others(front, name), rules.last());
    } else {
        assert(rules_of_others(rules, name) =~= rules);
    }
}

}

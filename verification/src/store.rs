//! What the commands of [`crate::database`] do to the tables, and what follows from it.
//!
//! A table is modelled by its rows in the order in which they were put in, the settings by the
//! text under each key. A command that SQLite refuses, because a key is there already or there
//! is no number left for a log line, changes nothing.
//!
//! No function of the library relies on this model: what is proved here holds of every store that
//! carries out the commands in this way.
use crate::database::{
    creation, flag_setting_up, flag_text, known_row, names_saving, proxy_row, proxy_saving,
    registers_autostart, row_known, row_proxy, row_rule, rule_row, rules_saving, setting_keys,
    settings_saving, signed_time, stored_action, stored_flag, CommandView, KnownRowView,
    LogRowView, ProxyRowView, RuleRowView, SettingKey,
};
use crate::engine::Settings;
use crate::model::{KnownView, ProxyView, RuleAction, RuleView};
use vstd::prelude::*;
use vstd::string::*;

verus! {

// ---------------------------------------------------------------------------------------------
// Model
// ---------------------------------------------------------------------------------------------

/// The tables of the store.
#[verifier::ext_equal]
pub struct StoreView {
    pub proxies: Seq<ProxyRowView>,
    pub rules: Seq<RuleRowView>,
    pub settings: Map<Seq<char>, Seq<char>>,
    pub known: Seq<KnownRowView>,
    pub logs: Seq<LogRowView>,
    /// The number that the next log line gets; none is given twice.
    pub next_log: int,
}

/// The number of log lines that are kept.
pub const LOG_LIMIT: usize = 300;

/// The proxies with another identifier.
pub open spec fn other_proxies(s: Seq<ProxyRowView>, id: Seq<char>) -> Seq<ProxyRowView> {
    s.filter(|r: ProxyRowView| r.id != id)
}

/// The proxies, none of them primary.
pub open spec fn without_primary(s: Seq<ProxyRowView>) -> Seq<ProxyRowView> {
    s.map_values(|r: ProxyRowView| ProxyRowView { is_primary: 0, ..r })
}

/// The known processes of another name.
pub open spec fn other_known(s: Seq<KnownRowView>, name: Seq<char>) -> Seq<KnownRowView> {
    s.filter(|r: KnownRowView| r.process_name != name)
}

/// A process of this name is known.
pub open spec fn is_known(s: Seq<KnownRowView>, name: Seq<char>) -> bool {
    exists|i: int| 0 <= i < s.len() && (#[trigger] s[i]).process_name == name
}

/// A rule has this identifier.
pub open spec fn has_rule(s: Seq<RuleRowView>, id: Seq<char>) -> bool {
    exists|i: int| 0 <= i < s.len() && (#[trigger] s[i]).id == id
}

/// The last log lines, as many as are kept.
pub open spec fn last_logs(s: Seq<LogRowView>) -> Seq<LogRowView> {
    if s.len() > LOG_LIMIT {
        s.skip(s.len() - LOG_LIMIT)
    } else {
        s
    }
}

/// The tables after a command, or nothing where the command is refused.
pub open spec fn effect(c: CommandView, t: StoreView) -> Option<StoreView> {
    match c {
        CommandView::Create(_) => Some(t),
        CommandView::InsertSetting(k, b) => if t.settings.contains_key(k.text()) {
            None
        } else {
            Some(StoreView { settings: t.settings.insert(k.text(), flag_text(b)), ..t })
        },
        CommandView::PutSetting(k, b) => Some(
            StoreView { settings: t.settings.insert(k.text(), flag_text(b)), ..t },
        ),
        CommandView::ClearPrimary => Some(
            StoreView { proxies: without_primary(t.proxies), ..t },
        ),
        CommandView::PutProxy(r) => Some(
            StoreView { proxies: other_proxies(t.proxies, r.id).push(r), ..t },
        ),
        CommandView::DeleteProxy(id) => Some(
            StoreView { proxies: other_proxies(t.proxies, id), ..t },
        ),
        CommandView::DeleteRules => Some(StoreView { rules: Seq::empty(), ..t }),
        CommandView::InsertRule(r) => if has_rule(t.rules, r.id) {
            None
        } else {
            Some(StoreView { rules: t.rules.push(r), ..t })
        },
        CommandView::PutKnown(r) => Some(
            StoreView { known: other_known(t.known, r.process_name).push(r), ..t },
        ),
        CommandView::AddKnown(name, now) => if is_known(t.known, name) {
            Some(t)
        } else {
            let row = KnownRowView {
                process_name: name,
                group_action: "new"@,
                proxy_id: None,
                created_at: now,
            };
            Some(StoreView { known: t.known.push(row), ..t })
        },
        CommandView::InsertLog(timestamp, level, source, message) => if t.next_log > i64::MAX {
            None
        } else {
            let row = LogRowView { id: t.next_log as i64, timestamp, level, source, message };
            Some(StoreView { logs: t.logs.push(row), next_log: t.next_log + 1, ..t })
        },
        CommandView::TrimLogs => Some(StoreView { logs: last_logs(t.logs), ..t }),
        CommandView::ClearLogs => Some(StoreView { logs: Seq::empty(), ..t }),
    }
}

/// The tables after some commands, one after the other, and whether all were carried out: the
/// first one that is refused ends it.
pub open spec fn carried_out(cs: Seq<CommandView>, t: StoreView) -> (StoreView, bool)
    decreases cs.len(),
{
    if cs.len() == 0 {
        (t, true)
    } else {
        let (before, ok) = carried_out(cs.drop_last(), t);
        if !ok {
            (before, false)
        } else {
            match effect(cs.last(), before) {
                Some(after) => (after, true),
                None => (before, false),
            }
        }
    }
}

/// One command.
proof fn carry_out_one(c: CommandView, t: StoreView)
    ensures
        carried_out(seq![c], t) == (match effect(c, t) {
            Some(after) => (after, true),
            None => (t, false),
        }),
{
    reveal_with_fuel(carried_out, 2);
    assert(seq![c].drop_last() =~= Seq::<CommandView>::empty());
}

/// One command more.
proof fn carry_out_more(cs: Seq<CommandView>, c: CommandView, t: StoreView)
    requires
        carried_out(cs, t).1,
    ensures
        carried_out(cs.push(c), t) == (match effect(c, carried_out(cs, t).0) {
            Some(after) => (after, true),
            None => (carried_out(cs, t).0, false),
        }),
{
    assert(cs.push(c).drop_last() =~= cs);
}

// ---------------------------------------------------------------------------------------------
// Keys
// ---------------------------------------------------------------------------------------------

/// No two rows have the same key.
pub open spec fn distinct_keys<T, K>(s: Seq<T>, key: spec_fn(T) -> K) -> bool {
    forall|i: int, j: int|
        0 <= i < s.len() && 0 <= j < s.len() && key(#[trigger] s[i]) == key(#[trigger] s[j]) ==> i
            == j
}

/// The key of a proxy.
pub open spec fn proxy_key() -> spec_fn(ProxyRowView) -> Seq<char> {
    |r: ProxyRowView| r.id
}

/// The key of a rule.
pub open spec fn rule_key() -> spec_fn(RuleRowView) -> Seq<char> {
    |r: RuleRowView| r.id
}

/// The key of a known process.
pub open spec fn known_key() -> spec_fn(KnownRowView) -> Seq<char> {
    |r: KnownRowView| r.process_name
}

/// The numbers of log lines rise along the rows and stay below `next`.
pub open spec fn rising_logs(s: Seq<LogRowView>, next: int) -> bool {
    &&& forall|i: int| 0 <= i < s.len() ==> 1 <= (#[trigger] s[i]).id < next
    &&& forall|i: int, j: int| 0 <= i < j < s.len() ==> (#[trigger] s[i]).id < (#[trigger] s[j]).id
}

/// The tables are as the store keeps them: no key occurs twice, and the numbers of log lines rise
/// and stay below the next one.
pub open spec fn sound(t: StoreView) -> bool {
    &&& distinct_keys(t.proxies, proxy_key())
    &&& distinct_keys(t.rules, rule_key())
    &&& distinct_keys(t.known, known_key())
    &&& rising_logs(t.logs, t.next_log)
    &&& 1 <= t.next_log <= i64::MAX + 1
}

/// The tables of a store that was just created.
pub open spec fn fresh_store() -> StoreView {
    StoreView {
        proxies: Seq::empty(),
        rules: Seq::empty(),
        settings: Map::empty(),
        known: Seq::empty(),
        logs: Seq::empty(),
        next_log: 1,
    }
}

/// Rows that are left out bring no key in twice.
proof fn filter_keeps_keys<T, K>(s: Seq<T>, key: spec_fn(T) -> K, pred: spec_fn(T) -> bool)
    requires
        distinct_keys(s, key),
    ensures
        distinct_keys(s.filter(pred), key),
    decreases s.len(),
{
    reveal(Seq::filter);
    if s.len() > 0 {
        let front = s.drop_last();
        let kept = front.filter(pred);
        assert forall|i: int, j: int|
            0 <= i < front.len() && 0 <= j < front.len() && key(#[trigger] front[i]) == key(
                #[trigger] front[j],
            ) implies i == j by {
            assert(front[i] == s[i] && front[j] == s[j]);
        }
        filter_keeps_keys(front, key, pred);
        if pred(s.last()) {
            assert(s.filter(pred) =~= kept.push(s.last()));
            assert forall|i: int| 0 <= i < kept.len() implies key(#[trigger] kept[i]) != key(
                s.last(),
            ) by {
                front.lemma_filter_contains_rev(pred, kept[i]);
                let k = choose|k: int| 0 <= k < front.len() && front[k] == kept[i];
                assert(s[k] == kept[i]);
                assert(s[s.len() - 1] == s.last());
            }
        }
    }
}

/// One more row with a new key brings no key in twice.
proof fn push_keeps_keys<T, K>(s: Seq<T>, key: spec_fn(T) -> K, x: T)
    requires
        distinct_keys(s, key),
        forall|i: int| 0 <= i < s.len() ==> key(#[trigger] s[i]) != key(x),
    ensures
        distinct_keys(s.push(x), key),
{
}

/// A store that was just created is sound.
pub proof fn fresh_store_is_sound()
    ensures
        sound(fresh_store()),
{
}

/// Every command that is carried out keeps the tables sound, and the next log number never goes
/// down.
pub proof fn commands_keep_the_tables_sound(c: CommandView, t: StoreView)
    requires
        sound(t),
    ensures
        effect(c, t) matches Some(after) ==> sound(after) && t.next_log <= after.next_log,
{
    match c {
        CommandView::ClearPrimary => {
            let rows = without_primary(t.proxies);
            assert forall|i: int, j: int|
                0 <= i < rows.len() && 0 <= j < rows.len() && proxy_key()(#[trigger] rows[i])
                    == proxy_key()(#[trigger] rows[j]) implies i == j by {
                assert(proxy_key()(t.proxies[i]) == proxy_key()(t.proxies[j]));
            }
        },
        CommandView::PutProxy(r) => {
            filter_keeps_keys(t.proxies, proxy_key(), |q: ProxyRowView| q.id != r.id);
            others_have_other_ids(t.proxies, r.id);
            push_keeps_keys(other_proxies(t.proxies, r.id), proxy_key(), r);
        },
        CommandView::DeleteProxy(id) => {
            filter_keeps_keys(t.proxies, proxy_key(), |q: ProxyRowView| q.id != id);
        },
        CommandView::InsertRule(r) => {
            if !has_rule(t.rules, r.id) {
                push_keeps_keys(t.rules, rule_key(), r);
            }
        },
        CommandView::PutKnown(r) => {
            filter_keeps_keys(
                t.known,
                known_key(),
                |q: KnownRowView| q.process_name != r.process_name,
            );
            others_have_other_names(t.known, r.process_name);
            push_keeps_keys(other_known(t.known, r.process_name), known_key(), r);
        },
        CommandView::AddKnown(name, now) => {
            if !is_known(t.known, name) {
                let row = KnownRowView {
                    process_name: name,
                    group_action: "new"@,
                    proxy_id: None,
                    created_at: now,
                };
                push_keeps_keys(t.known, known_key(), row);
            }
        },
        _ => {},
    }
}

/// Commands, one after the other, keep the tables sound, and the next log number never goes
/// down; also where one of them is refused.
pub proof fn operations_keep_the_tables_sound(cs: Seq<CommandView>, t: StoreView)
    requires
        sound(t),
    ensures
        sound(carried_out(cs, t).0),
        t.next_log <= carried_out(cs, t).0.next_log,
    decreases cs.len(),
{
    if cs.len() > 0 {
        operations_keep_the_tables_sound(cs.drop_last(), t);
        let before = carried_out(cs.drop_last(), t).0;
        commands_keep_the_tables_sound(cs.last(), before);
    }
}

// ---------------------------------------------------------------------------------------------
// Rows and records
// ---------------------------------------------------------------------------------------------

/// A stored proxy reads back as the proxy it was.
pub proof fn proxy_reads_back(p: ProxyView)
    ensures
        row_proxy(proxy_row(p)) == p,
{
}

/// A stored action reads back as the action it was.
pub proof fn action_reads_back(a: RuleAction)
    ensures
        stored_action(a.text()) == a,
{
    reveal_strlit("Block");
    reveal_strlit("Direct");
    reveal_strlit("Proxy");
    assert("Block"@.len() == 5 && "Direct"@.len() == 6 && "Proxy"@.len() == 5);
    assert("Block"@[0] == 'B' && "Proxy"@[0] == 'P');
}

/// A stored rule reads back as the rule it was.
pub proof fn rule_reads_back(r: RuleView)
    ensures
        row_rule(rule_row(r)) == r,
{
    action_reads_back(r.action);
}

/// A stored known process reads back as the process it was.
pub proof fn known_reads_back(p: KnownView)
    ensures
        row_known(known_row(p)) == p,
{
}

// ---------------------------------------------------------------------------------------------
// Proxies
// ---------------------------------------------------------------------------------------------

/// The number of primary proxies.
pub open spec fn primaries(s: Seq<ProxyRowView>) -> nat
    decreases s.len(),
{
    if s.len() == 0 {
        0
    } else {
        primaries(s.drop_last()) + (if s.last().is_primary != 0 {
            1nat
        } else {
            0
        })
    }
}

/// Removing proxies makes no more of them primary.
proof fn fewer_primaries(s: Seq<ProxyRowView>, id: Seq<char>)
    ensures
        primaries(other_proxies(s, id)) <= primaries(s),
    decreases s.len(),
{
    reveal(Seq::filter);
    if s.len() > 0 {
        let front = s.drop_last();
        let kept = other_proxies(front, id);
        fewer_primaries(front, id);
        if s.last().id != id {
            assert(other_proxies(s, id) =~= kept.push(s.last()));
            assert(kept.push(s.last()).drop_last() =~= kept);
        } else {
            assert(other_proxies(s, id) =~= kept);
        }
    } else {
        assert(other_proxies(s, id) =~= s);
    }
}

/// Where no proxy is primary, there are no primary ones.
proof fn no_primaries(s: Seq<ProxyRowView>)
    ensures
        primaries(without_primary(s)) == 0,
    decreases s.len(),
{
    if s.len() > 0 {
        no_primaries(s.drop_last());
        assert(without_primary(s).drop_last() =~= without_primary(s.drop_last()));
    }
}

/// None of the other proxies has the identifier.
proof fn others_have_other_ids(s: Seq<ProxyRowView>, id: Seq<char>)
    ensures
        forall|i: int|
            0 <= i < other_proxies(s, id).len() ==> (#[trigger] other_proxies(s, id)[i]).id != id,
{
    let pred = |r: ProxyRowView| r.id != id;
    broadcast use vstd::seq_lib::group_filter_ensures;

    assert forall|i: int| 0 <= i < other_proxies(s, id).len() implies (#[trigger] other_proxies(
        s,
        id,
    )[i]).id != id by {
        assert(pred(s.filter(pred)[i]));
    }
}

/// The tables after a proxy was saved.
pub open spec fn with_proxy(t: StoreView, p: ProxyView) -> StoreView {
    let before = if p.is_primary {
        without_primary(t.proxies)
    } else {
        t.proxies
    };
    StoreView { proxies: other_proxies(before, p.id).push(proxy_row(p)), ..t }
}

/// Saving a proxy always succeeds. Afterwards the proxy is the last one, reads back as it was
/// saved, and is the only one with its identifier.
pub proof fn saved_proxy_is_there(t: StoreView, p: ProxyView)
    ensures
        carried_out(proxy_saving(p), t) == (with_proxy(t, p), true),
        ({
            let rows = with_proxy(t, p).proxies;
            &&& row_proxy(rows.last()) == p
            &&& forall|i: int| 0 <= i < rows.len() - 1 ==> (#[trigger] rows[i]).id != p.id
        }),
{
    let put = CommandView::PutProxy(proxy_row(p));
    if p.is_primary {
        carry_out_one(CommandView::ClearPrimary, t);
        carry_out_more(seq![CommandView::ClearPrimary], put, t);
        assert(seq![CommandView::ClearPrimary].push(put) =~= proxy_saving(p));
        others_have_other_ids(without_primary(t.proxies), p.id);
    } else {
        carry_out_one(put, t);
        others_have_other_ids(t.proxies, p.id);
    }
}

/// There is never more than one primary proxy: where there was at most one before a proxy was
/// saved, there is at most one afterwards; and a proxy that is saved as primary is then the only
/// one, whatever there was before.
pub proof fn at_most_one_primary(t: StoreView, p: ProxyView)
    ensures
        primaries(t.proxies) <= 1 ==> primaries(with_proxy(t, p).proxies) <= 1,
        p.is_primary ==> primaries(with_proxy(t, p).proxies) == 1,
{
    let rows = with_proxy(t, p).proxies;
    if p.is_primary {
        no_primaries(t.proxies);
        fewer_primaries(without_primary(t.proxies), p.id);
    } else {
        fewer_primaries(t.proxies, p.id);
    }
    assert(rows.drop_last() =~= other_proxies(
        if p.is_primary {
            without_primary(t.proxies)
        } else {
            t.proxies
        },
        p.id,
    ));
}

/// Deleting a proxy always succeeds, and afterwards no proxy has its identifier, no more of them
/// are primary, and nothing else changed.
pub proof fn deleted_proxy_is_gone(t: StoreView, id: Seq<char>)
    ensures
        carried_out(seq![CommandView::DeleteProxy(id)], t) == (
            StoreView { proxies: other_proxies(t.proxies, id), ..t },
            true,
        ),
        forall|i: int|
            0 <= i < other_proxies(t.proxies, id).len() ==> (#[trigger] other_proxies(
                t.proxies,
                id,
            )[i]).id != id,
        primaries(other_proxies(t.proxies, id)) <= primaries(t.proxies),
{
    carry_out_one(CommandView::DeleteProxy(id), t);
    others_have_other_ids(t.proxies, id);
    fewer_primaries(t.proxies, id);
}

// ---------------------------------------------------------------------------------------------
// Rules
// ---------------------------------------------------------------------------------------------

/// No two rules have the same identifier.
pub open spec fn distinct_rules(s: Seq<RuleView>) -> bool {
    forall|i: int, j: int|
        0 <= i < s.len() && 0 <= j < s.len() && (#[trigger] s[i]).id == (#[trigger] s[j]).id
            ==> i == j
}

/// The rows in which rules are stored.
pub open spec fn rule_rows(s: Seq<RuleView>) -> Seq<RuleRowView> {
    s.map_values(|r: RuleView| rule_row(r))
}

/// The rules that rows hold.
pub open spec fn rows_rules(s: Seq<RuleRowView>) -> Seq<RuleView> {
    s.map_values(|r: RuleRowView| row_rule(r))
}

/// Rules that are saved are then all there is, in their order, and read back as they were. This
/// takes that no two of them have the same identifier; the store refuses the second one.
pub proof fn saved_rules_read_back(t: StoreView, rules: Seq<RuleView>)
    requires
        distinct_rules(rules),
    ensures
        carried_out(rules_saving(rules), t) == (StoreView { rules: rule_rows(rules), ..t }, true),
        rows_rules(rule_rows(rules)) == rules,
    decreases rules.len(),
{
    if rules.len() == 0 {
        carry_out_one(CommandView::DeleteRules, t);
        assert(rules_saving(rules) =~= seq![CommandView::DeleteRules]);
        assert(rule_rows(rules) =~= Seq::<RuleRowView>::empty());
        assert(rows_rules(rule_rows(rules)) =~= rules);
    } else {
        let front = rules.drop_last();
        assert forall|i: int, j: int|
            0 <= i < front.len() && 0 <= j < front.len() && (#[trigger] front[i]).id == (
            #[trigger] front[j]).id implies i == j by {
            assert(front[i] == rules[i] && front[j] == rules[j]);
        }
        saved_rules_read_back(t, front);
        let last = rule_row(rules.last());
        let rows = rule_rows(front);
        assert(!has_rule(rows, last.id)) by {
            if has_rule(rows, last.id) {
                let i = choose|i: int| 0 <= i < rows.len() && (#[trigger] rows[i]).id == last.id;
                assert(rules[i].id == rules[rules.len() - 1].id);
            }
        }
        carry_out_more(rules_saving(front), CommandView::InsertRule(last), t);
        assert(rules_saving(front).push(CommandView::InsertRule(last)) =~= rules_saving(rules));
        assert(rows.push(last) =~= rule_rows(rules));
        assert forall|i: int| 0 <= i < rules.len() implies rows_rules(rule_rows(rules))[i]
            == rules[i] by {
            rule_reads_back(rules[i]);
        }
        assert(rows_rules(rule_rows(rules)) =~= rules);
    }
}

// ---------------------------------------------------------------------------------------------
// Settings
// ---------------------------------------------------------------------------------------------

/// The text under a key, if there is one.
pub open spec fn setting(m: Map<Seq<char>, Seq<char>>, k: SettingKey) -> Option<Seq<char>> {
    if m.contains_key(k.text()) {
        Some(m[k.text()])
    } else {
        None
    }
}

/// The settings that the stored texts stand for.
pub open spec fn stored_settings(m: Map<Seq<char>, Seq<char>>) -> Settings {
    Settings {
        proxy_dns: stored_flag(SettingKey::ProxyDns, setting(m, SettingKey::ProxyDns)),
        bypass_local: stored_flag(SettingKey::BypassLocal, setting(m, SettingKey::BypassLocal)),
        autostart: stored_flag(SettingKey::Autostart, setting(m, SettingKey::Autostart)),
        minimize_to_tray: stored_flag(
            SettingKey::MinimizeToTray,
            setting(m, SettingKey::MinimizeToTray),
        ),
        start_minimized: stored_flag(
            SettingKey::StartMinimized,
            setting(m, SettingKey::StartMinimized),
        ),
    }
}

/// Every flag has a key of its own.
pub proof fn setting_keys_differ(a: SettingKey, b: SettingKey)
    ensures
        a.text() == b.text() ==> a == b,
{
    reveal_strlit("proxy_dns");
    reveal_strlit("bypass_local");
    reveal_strlit("autostart");
    reveal_strlit("minimize_to_tray");
    reveal_strlit("start_minimized");
    assert("proxy_dns"@.len() == 9 && "bypass_local"@.len() == 12 && "autostart"@.len() == 9
        && "minimize_to_tray"@.len() == 16 && "start_minimized"@.len() == 15);
    assert("proxy_dns"@[0] == 'p' && "autostart"@[0] == 'a');
}

/// The two texts of a flag differ.
proof fn flag_texts_differ(b: bool)
    ensures
        flag_text(b) == "true"@ <==> b,
{
    reveal_strlit("true");
    reveal_strlit("false");
    assert("true"@.len() == 4 && "false"@.len() == 5);
}

/// The settings with some flags set.
pub open spec fn with_flags(
    m: Map<Seq<char>, Seq<char>>,
    f: Settings,
) -> Map<Seq<char>, Seq<char>> {
    m.insert(SettingKey::ProxyDns.text(), flag_text(f.proxy_dns)).insert(
        SettingKey::BypassLocal.text(),
        flag_text(f.bypass_local),
    ).insert(SettingKey::Autostart.text(), flag_text(f.autostart)).insert(
        SettingKey::MinimizeToTray.text(),
        flag_text(f.minimize_to_tray),
    ).insert(SettingKey::StartMinimized.text(), flag_text(f.start_minimized))
}

/// Settings that are saved read back as they were.
pub proof fn saved_settings_read_back(t: StoreView, f: Settings)
    ensures
        carried_out(settings_saving(f), t) == (
            StoreView { settings: with_flags(t.settings, f), ..t },
            true,
        ),
        stored_settings(with_flags(t.settings, f)) == f,
{
    let c0 = CommandView::PutSetting(SettingKey::ProxyDns, f.proxy_dns);
    let c1 = CommandView::PutSetting(SettingKey::BypassLocal, f.bypass_local);
    let c2 = CommandView::PutSetting(SettingKey::Autostart, f.autostart);
    let c3 = CommandView::PutSetting(SettingKey::MinimizeToTray, f.minimize_to_tray);
    let c4 = CommandView::PutSetting(SettingKey::StartMinimized, f.start_minimized);
    carry_out_one(c0, t);
    carry_out_more(seq![c0], c1, t);
    carry_out_more(seq![c0].push(c1), c2, t);
    carry_out_more(seq![c0].push(c1).push(c2), c3, t);
    carry_out_more(seq![c0].push(c1).push(c2).push(c3), c4, t);
    assert(seq![c0].push(c1).push(c2).push(c3).push(c4) =~= settings_saving(f));
    assert forall|a: SettingKey, b: SettingKey| #[trigger] a.text() == #[trigger] b.text() implies a
        == b by {
        setting_keys_differ(a, b);
    }
    flag_texts_differ(f.proxy_dns);
    flag_texts_differ(f.bypass_local);
    flag_texts_differ(f.autostart);
    flag_texts_differ(f.minimize_to_tray);
    flag_texts_differ(f.start_minimized);
}

/// A flag that is not there can be added with its default value.
pub proof fn missing_flag_is_added(t: StoreView, k: SettingKey)
    requires
        !t.settings.contains_key(k.text()),
    ensures
        carried_out(seq![CommandView::InsertSetting(k, k.default_value())], t) == (
            StoreView {
                settings: t.settings.insert(k.text(), flag_text(k.default_value())),
                ..t
            },
            true,
        ),
{
    carry_out_one(CommandView::InsertSetting(k, k.default_value()), t);
}

/// The settings after the first `n` flags were set up: a flag that is there stays as it is.
pub open spec fn set_up(m: Map<Seq<char>, Seq<char>>, n: int) -> Map<Seq<char>, Seq<char>>
    decreases n,
{
    if n <= 0 {
        m
    } else {
        let before = set_up(m, n - 1);
        let k = setting_keys()[n - 1];
        if before.contains_key(k.text()) {
            before
        } else {
            before.insert(k.text(), flag_text(k.default_value()))
        }
    }
}

/// Setting up the flags changes none that is there.
proof fn set_up_keeps(m: Map<Seq<char>, Seq<char>>, n: int, key: Seq<char>)
    requires
        m.contains_key(key),
    ensures
        set_up(m, n).contains_key(key),
        set_up(m, n)[key] == m[key],
    decreases n,
{
    if n > 0 {
        set_up_keeps(m, n - 1, key);
    }
}

/// Setting up the flags again changes nothing.
proof fn set_up_again(m: Map<Seq<char>, Seq<char>>, n: int)
    requires
        forall|i: int|
            0 <= i < n ==> m.contains_key((#[trigger] setting_keys()[i]).text()),
    ensures
        set_up(m, n) == m,
    decreases n,
{
    if n > 0 {
        set_up_again(m, n - 1);
        assert(m.contains_key(setting_keys()[n - 1].text()));
    }
}

/// The first `n` flags are there once they were set up.
proof fn set_up_adds(m: Map<Seq<char>, Seq<char>>, n: int, i: int)
    requires
        0 <= i < n,
    ensures
        set_up(m, n).contains_key(setting_keys()[i].text()),
    decreases n,
{
    if i < n - 1 {
        set_up_adds(m, n - 1, i);
    }
}

/// Setting up the flags leaves those that are there as they are, gives the others their default
/// value, so that the settings that are read stay the same, and changes nothing the second time.
pub proof fn set_up_keeps_settings(m: Map<Seq<char>, Seq<char>>)
    ensures
        stored_settings(set_up(m, 5)) == stored_settings(m),
        set_up(set_up(m, 5), 5) == set_up(m, 5),
        forall|k: SettingKey| set_up(m, 5).contains_key(#[trigger] k.text()),
        forall|key: Seq<char>| #[trigger]
            m.contains_key(key) ==> set_up(m, 5).contains_key(key) && set_up(m, 5)[key] == m[key],
{
    let after = set_up(m, 5);
    assert forall|key: Seq<char>| #[trigger] m.contains_key(key) implies after.contains_key(key)
        && after[key] == m[key] by {
        set_up_keeps(m, 5, key);
    }
    assert forall|i: int| 0 <= i < 5 implies after.contains_key(
        (#[trigger] setting_keys()[i]).text(),
    ) by {
        set_up_adds(m, 5, i);
    }
    set_up_again(after, 5);
    assert forall|k: SettingKey| after.contains_key(#[trigger] k.text()) by {
        let i: int = match k {
            SettingKey::ProxyDns => 0,
            SettingKey::BypassLocal => 1,
            SettingKey::Autostart => 2,
            SettingKey::MinimizeToTray => 3,
            SettingKey::StartMinimized => 4,
        };
        assert(setting_keys()[i] == k);
    }
    assert forall|a: SettingKey, b: SettingKey| #[trigger] a.text() == #[trigger] b.text() implies a
        == b by {
        setting_keys_differ(a, b);
    }
    reveal_with_fuel(set_up, 6);
    flag_texts_differ(true);
    flag_texts_differ(false);
}

/// How often a flag is stored.
pub open spec fn flag_count(m: Map<Seq<char>, Seq<char>>, k: SettingKey) -> i64 {
    if m.contains_key(k.text()) {
        1
    } else {
        0
    }
}

/// The tables after the store was opened, as far as the first `n` flags, and whether all went
/// well: the tables are created, and then each flag is counted and set up.
pub open spec fn opened(t: StoreView, n: int) -> (StoreView, bool)
    decreases n,
{
    if n <= 0 {
        carried_out(creation(), t)
    } else {
        let (before, ok) = opened(t, n - 1);
        if ok {
            let k = setting_keys()[n - 1];
            carried_out(flag_setting_up(k, flag_count(before.settings, k)), before)
        } else {
            (before, false)
        }
    }
}

/// Opening the store goes through each flag in turn.
proof fn opened_so_far(t: StoreView, n: int)
    requires
        0 <= n <= 5,
    ensures
        opened(t, n) == (StoreView { settings: set_up(t.settings, n), ..t }, true),
    decreases n,
{
    if n == 0 {
        creation_changes_nothing(t);
    } else {
        opened_so_far(t, n - 1);
        let before = StoreView { settings: set_up(t.settings, n - 1), ..t };
        let k = setting_keys()[n - 1];
        if !before.settings.contains_key(k.text()) {
            missing_flag_is_added(before, k);
        } else {
            assert(carried_out(Seq::empty(), before) == (before, true));
        }
    }
}

/// A flag that is not there before any flag was set up is not there when its turn comes.
proof fn flag_waits_for_its_turn(m: Map<Seq<char>, Seq<char>>, n: int, i: int)
    requires
        0 <= n <= i < 5,
    ensures
        set_up(m, n).contains_key(setting_keys()[i].text()) == m.contains_key(
            setting_keys()[i].text(),
        ),
    decreases n,
{
    if n > 0 {
        flag_waits_for_its_turn(m, n - 1, i);
        setting_keys_differ(setting_keys()[n - 1], setting_keys()[i]);
    }
}

/// Opening the store always succeeds. Afterwards the flags are set up and nothing else changed.
/// The program is registered to start with the system where the flag for that was not there, and
/// at no other step.
pub proof fn opening_sets_up_the_flags(t: StoreView)
    ensures
        opened(t, 5) == (StoreView { settings: set_up(t.settings, 5), ..t }, true),
        forall|i: int|
            0 <= i < 5 ==> ({
                let k = #[trigger] setting_keys()[i];
                registers_autostart(k, flag_count(opened(t, i).0.settings, k)) <==> k
                    == SettingKey::Autostart && !t.settings.contains_key(k.text())
            }),
{
    opened_so_far(t, 5);
    assert forall|i: int| 0 <= i < 5 implies ({
        let k = #[trigger] setting_keys()[i];
        registers_autostart(k, flag_count(opened(t, i).0.settings, k)) <==> k
            == SettingKey::Autostart && !t.settings.contains_key(k.text())
    }) by {
        opened_so_far(t, i);
        flag_waits_for_its_turn(t.settings, i, i);
    }
}

// ---------------------------------------------------------------------------------------------
// Known processes
// ---------------------------------------------------------------------------------------------

/// None of the other known processes has the name.
proof fn others_have_other_names(s: Seq<KnownRowView>, name: Seq<char>)
    ensures
        forall|i: int|
            0 <= i < other_known(s, name).len() ==> (#[trigger] other_known(s, name)[i]).process_name
                != name,
{
    let pred = |r: KnownRowView| r.process_name != name;
    broadcast use vstd::seq_lib::group_filter_ensures;

    assert forall|i: int| 0 <= i < other_known(s, name).len() implies (#[trigger] other_known(
        s,
        name,
    )[i]).process_name != name by {
        assert(pred(s.filter(pred)[i]));
    }
}

/// A known process that is saved is then the only one of its name, and reads back as it was.
pub proof fn saved_process_is_there(t: StoreView, p: KnownView)
    ensures
        ({
            let rows = other_known(t.known, p.process_name).push(known_row(p));
            &&& carried_out(seq![CommandView::PutKnown(known_row(p))], t) == (
                StoreView { known: rows, ..t },
                true,
            )
            &&& row_known(rows.last()) == p
            &&& forall|i: int|
                0 <= i < rows.len() - 1 ==> (#[trigger] rows[i]).process_name != p.process_name
        }),
{
    carry_out_one(CommandView::PutKnown(known_row(p)), t);
    others_have_other_names(t.known, p.process_name);
}

/// The rows that the question for the known processes gives: all of the table, by the time at
/// which each was first seen, the latest first. Rows of the same time come in any order.
pub open spec fn known_reading(rows: Seq<KnownRowView>, table: Seq<KnownRowView>) -> bool {
    &&& rows.to_multiset() == table.to_multiset()
    &&& forall|i: int, j: int|
        0 <= i <= j < rows.len() ==> (#[trigger] rows[i]).created_at >= (
        #[trigger] rows[j]).created_at
}

/// The known processes that rows hold.
pub open spec fn rows_known(s: Seq<KnownRowView>) -> Seq<KnownView> {
    s.map_values(|r: KnownRowView| row_known(r))
}

/// A reading holds the rows of the table, and no others.
proof fn reading_has_rows(rows: Seq<KnownRowView>, table: Seq<KnownRowView>)
    requires
        known_reading(rows, table),
    ensures
        rows.len() == table.len(),
        forall|r: KnownRowView| #[trigger] rows.contains(r) <==> table.contains(r),
{
    rows.to_multiset_ensures();
    table.to_multiset_ensures();
    assert forall|r: KnownRowView| #[trigger] rows.contains(r) <==> table.contains(r) by {
        assert(rows.contains(r) <==> rows.to_multiset().count(r) > 0);
        assert(table.contains(r) <==> table.to_multiset().count(r) > 0);
    }
}

/// A reading of a table with one row per process has one row per process.
proof fn reading_has_keys(rows: Seq<KnownRowView>, table: Seq<KnownRowView>)
    requires
        known_reading(rows, table),
        distinct_keys(table, known_key()),
    ensures
        distinct_keys(rows, known_key()),
{
    reading_has_rows(rows, table);
    assert(table.no_duplicates()) by {
        assert forall|i: int, j: int|
            0 <= i < table.len() && 0 <= j < table.len() && i != j implies table[i] != table[j] by {
            assert(known_key()(table[i]) == known_key()(table[j]) ==> i == j);
        }
    }
    table.lemma_multiset_has_no_duplicates();
    rows.lemma_multiset_has_no_duplicates_conv();
    assert forall|i: int, j: int|
        0 <= i < rows.len() && 0 <= j < rows.len() && known_key()(#[trigger] rows[i])
            == known_key()(#[trigger] rows[j]) implies i == j by {
        assert(rows.contains(rows[i]) && rows.contains(rows[j]));
        let a = choose|a: int| 0 <= a < table.len() && table[a] == rows[i];
        let b = choose|b: int| 0 <= b < table.len() && table[b] == rows[j];
        assert(known_key()(table[a]) == known_key()(table[b]));
    }
}

/// Every table of known processes can be read.
pub proof fn known_can_be_read(table: Seq<KnownRowView>) -> (rows: Seq<KnownRowView>)
    ensures
        known_reading(rows, table),
    decreases table.len(),
{
    if table.len() == 0 {
        table
    } else {
        let front = table.drop_last();
        let x = table.last();
        let rest = known_can_be_read(front);
        let k = place_of(rest, x, 0);
        let rows = rest.insert(k, x);
        vstd::seq_lib::to_multiset_insert(rest, k, x);
        vstd::seq_lib::to_multiset_build(front, x);
        assert(front.push(x) =~= table);
        rows
    }
}

/// Where a row goes among rows that come the latest first.
proof fn place_of(rows: Seq<KnownRowView>, x: KnownRowView, from: int) -> (k: int)
    requires
        0 <= from <= rows.len(),
        forall|i: int| 0 <= i < from ==> (#[trigger] rows[i]).created_at >= x.created_at,
        forall|i: int, j: int|
            0 <= i <= j < rows.len() ==> (#[trigger] rows[i]).created_at >= (
            #[trigger] rows[j]).created_at,
    ensures
        0 <= k <= rows.len(),
        forall|i: int| 0 <= i < k ==> (#[trigger] rows[i]).created_at >= x.created_at,
        forall|i: int| k <= i < rows.len() ==> x.created_at >= (#[trigger] rows[i]).created_at,
    decreases rows.len() - from,
{
    if from == rows.len() || rows[from].created_at < x.created_at {
        from
    } else {
        place_of(rows, x, from + 1)
    }
}

/// A known process that is saved is then read among the others: what is read are the processes of
/// other names that were read before, and the one that was saved, one for each name, the latest
/// first. The times go by the signed numbers in which they are stored; where no time exceeds the
/// greatest of these, by the times themselves.
pub proof fn saved_process_is_read(
    t: StoreView,
    before: Seq<KnownRowView>,
    after: Seq<KnownRowView>,
    p: KnownView,
)
    requires
        sound(t),
        known_reading(before, t.known),
        known_reading(after, carried_out(seq![CommandView::PutKnown(known_row(p))], t).0.known),
    ensures
        carried_out(seq![CommandView::PutKnown(known_row(p))], t).1,
        ({
            let old_list = rows_known(before);
            let new_list = rows_known(after);
            &&& forall|k: KnownView| #[trigger]
                new_list.contains(k) <==> k == p || (old_list.contains(k) && k.process_name
                    != p.process_name)
            &&& forall|i: int, j: int|
                0 <= i < new_list.len() && 0 <= j < new_list.len() && (
                #[trigger] new_list[i]).process_name == (#[trigger] new_list[j]).process_name ==> i
                    == j
            &&& forall|i: int, j: int|
                0 <= i <= j < new_list.len() ==> signed_time((#[trigger] new_list[i]).created_at)
                    >= signed_time((#[trigger] new_list[j]).created_at)
            &&& p.created_at <= i64::MAX && (forall|i: int|
                0 <= i < old_list.len() ==> (#[trigger] old_list[i]).created_at <= i64::MAX)
                ==> forall|i: int, j: int|
                0 <= i <= j < new_list.len() ==> (#[trigger] new_list[i]).created_at >= (
                #[trigger] new_list[j]).created_at
        }),
{
    saved_process_is_there(t, p);
    let kept = other_known(t.known, p.process_name);
    let table = kept.push(known_row(p));
    let old_list = rows_known(before);
    let new_list = rows_known(after);
    commands_keep_the_tables_sound(CommandView::PutKnown(known_row(p)), t);
    reading_has_rows(before, t.known);
    reading_has_rows(after, table);
    reading_has_keys(after, table);
    let pred = |r: KnownRowView| r.process_name != p.process_name;
    broadcast use vstd::seq_lib::group_filter_ensures;

    assert forall|k: KnownView| #[trigger] new_list.contains(k) <==> k == p || (old_list.contains(
        k,
    ) && k.process_name != p.process_name) by {
        if new_list.contains(k) {
            let i = choose|i: int| 0 <= i < new_list.len() && new_list[i] == k;
            assert(after.contains(after[i]));
            let j = choose|j: int| 0 <= j < table.len() && table[j] == after[i];
            if j < kept.len() {
                assert(kept[j] == after[i]);
                t.known.lemma_filter_contains_rev(pred, kept[j]);
                others_have_other_names(t.known, p.process_name);
                assert(before.contains(kept[j]));
                let b = choose|b: int| 0 <= b < before.len() && before[b] == kept[j];
                assert(old_list[b] == k);
            }
        }
        if k == p {
            assert(table[table.len() - 1] == known_row(p));
            assert(table.contains(known_row(p)));
            assert(after.contains(known_row(p)));
            let i = choose|i: int| 0 <= i < after.len() && after[i] == known_row(p);
            known_reads_back(p);
            assert(new_list[i] == p);
        }
        if old_list.contains(k) && k.process_name != p.process_name {
            let b = choose|b: int| 0 <= b < old_list.len() && old_list[b] == k;
            let row = before[b];
            assert(before.contains(row));
            assert(t.known.contains(row));
            assert(pred(row));
            assert(kept.contains(row));
            let j = choose|j: int| 0 <= j < kept.len() && kept[j] == row;
            assert(table[j] == row);
            assert(table.contains(row));
            assert(after.contains(row));
            let i = choose|i: int| 0 <= i < after.len() && after[i] == row;
            assert(new_list[i] == k);
        }
    }
    assert forall|i: int, j: int|
        0 <= i < new_list.len() && 0 <= j < new_list.len() && (#[trigger] new_list[i]).process_name
            == (#[trigger] new_list[j]).process_name implies i == j by {
        assert(known_key()(after[i]) == known_key()(after[j]));
    }
    assert forall|i: int, j: int| 0 <= i <= j < new_list.len() implies signed_time(
        (#[trigger] new_list[i]).created_at,
    ) >= signed_time((#[trigger] new_list[j]).created_at) by {
        assert(after[i].created_at >= after[j].created_at);
    }
    if p.created_at <= i64::MAX && (forall|i: int|
        0 <= i < old_list.len() ==> (#[trigger] old_list[i]).created_at <= i64::MAX) {
        assert forall|i: int| 0 <= i < new_list.len() implies (#[trigger] new_list[i]).created_at
            <= i64::MAX by {
            assert(new_list.contains(new_list[i]));
            if new_list[i] != p {
                let b = choose|b: int| 0 <= b < old_list.len() && old_list[b] == new_list[i];
                assert(old_list[b].created_at <= i64::MAX);
            }
        }
        assert forall|i: int, j: int| 0 <= i <= j < new_list.len() implies (
        #[trigger] new_list[i]).created_at >= (#[trigger] new_list[j]).created_at by {
            assert(signed_time(new_list[i].created_at) >= signed_time(new_list[j].created_at));
        }
    }
}

/// Making processes known keeps every one that is known as it is, and afterwards all of them are
/// known. It always succeeds, and touches nothing else.
pub proof fn new_processes_become_known(t: StoreView, names: Seq<Seq<char>>, now: i64)
    ensures
        carried_out(names_saving(names, now), t).1,
        ({
            let after = carried_out(names_saving(names, now), t).0;
            &&& after == (StoreView { known: after.known, ..t })
            &&& t.known.is_prefix_of(after.known)
            &&& forall|i: int| 0 <= i < names.len() ==> is_known(after.known, #[trigger] names[i])
            &&& forall|i: int|
                t.known.len() <= i < after.known.len() ==> {
                    let row = #[trigger] after.known[i];
                    &&& names.contains(row.process_name)
                    &&& !is_known(t.known, row.process_name)
                    &&& row.group_action == "new"@
                    &&& row.proxy_id is None
                    &&& row.created_at == now
                }
        }),
    decreases names.len(),
{
    if names.len() == 0 {
        assert(names_saving(names, now) =~= Seq::<CommandView>::empty());
        assert(t.known.is_prefix_of(t.known)) by {
            assert(t.known.subrange(0, t.known.len() as int) =~= t.known);
        }
    } else {
        let front = names.drop_last();
        let name = names.last();
        new_processes_become_known(t, front, now);
        let mid = carried_out(names_saving(front, now), t).0;
        let c = CommandView::AddKnown(name, now);
        carry_out_more(names_saving(front, now), c, t);
        assert(names_saving(front, now).push(c) =~= names_saving(names, now));
        let after = carried_out(names_saving(names, now), t).0;
        assert(t.known =~= mid.known.subrange(0, t.known.len() as int));
        assert(after.known.subrange(0, t.known.len() as int) =~= t.known);
        assert forall|n: Seq<char>| #[trigger] is_known(mid.known, n) implies is_known(
            after.known,
            n,
        ) by {
            let i = choose|i: int|
                0 <= i < mid.known.len() && (#[trigger] mid.known[i]).process_name == n;
            assert(after.known[i].process_name == n);
        }
        assert(is_known(after.known, name)) by {
            if !is_known(mid.known, name) {
                assert(after.known[after.known.len() - 1].process_name == name);
            }
        }
        assert forall|i: int| 0 <= i < names.len() implies is_known(
            after.known,
            #[trigger] names[i],
        ) by {
            if i < front.len() {
                assert(front[i] == names[i]);
            }
        }
        assert forall|i: int| t.known.len() <= i < after.known.len() implies {
            let row = #[trigger] after.known[i];
            &&& names.contains(row.process_name)
            &&& !is_known(t.known, row.process_name)
            &&& row.group_action == "new"@
            &&& row.proxy_id is None
            &&& row.created_at == now
        } by {
            let row = after.known[i];
            if i < mid.known.len() {
                assert(row == mid.known[i]);
                let j = choose|j: int| 0 <= j < front.len() && front[j] == row.process_name;
                assert(names[j] == row.process_name);
            } else {
                assert(names[names.len() - 1] == row.process_name);
                if is_known(t.known, row.process_name) {
                    let j = choose|j: int|
                        0 <= j < t.known.len() && (#[trigger] t.known[j]).process_name
                            == row.process_name;
                    assert(mid.known[j] == t.known[j]);
                    assert(is_known(mid.known, row.process_name));
                }
            }
        }
    }
}

/// Making processes known that are known already changes nothing.
pub proof fn known_processes_stay(t: StoreView, names: Seq<Seq<char>>, now: i64)
    requires
        forall|i: int| 0 <= i < names.len() ==> is_known(t.known, #[trigger] names[i]),
    ensures
        carried_out(names_saving(names, now), t) == (t, true),
    decreases names.len(),
{
    if names.len() == 0 {
        assert(names_saving(names, now) =~= Seq::<CommandView>::empty());
    } else {
        let front = names.drop_last();
        assert forall|i: int| 0 <= i < front.len() implies is_known(
            t.known,
            #[trigger] front[i],
        ) by {
            assert(front[i] == names[i]);
        }
        known_processes_stay(t, front, now);
        let c = CommandView::AddKnown(names.last(), now);
        assert(is_known(t.known, names[names.len() - 1]));
        carry_out_more(names_saving(front, now), c, t);
        assert(names_saving(front, now).push(c) =~= names_saving(names, now));
    }
}

// ---------------------------------------------------------------------------------------------
// Log
// ---------------------------------------------------------------------------------------------

/// The log as it is read: the latest line first, and no more lines than are kept.
pub open spec fn newest_first(s: Seq<LogRowView>) -> Seq<LogRowView> {
    last_logs(s).reverse()
}

/// A log line that is added is the first one that is read. No more lines are kept than may be,
/// and only the oldest ones are dropped.
pub proof fn log_keeps_the_latest(
    t: StoreView,
    now: i64,
    level: Seq<char>,
    source: Seq<char>,
    message: Seq<char>,
)
    requires
        t.next_log <= i64::MAX,
    ensures
        ({
            let row = LogRowView { id: t.next_log as i64, timestamp: now, level, source, message };
            let (after, ok) = carried_out(
                seq![CommandView::InsertLog(now, level, source, message), CommandView::TrimLogs],
                t,
            );
            &&& ok
            &&& after.logs == last_logs(t.logs.push(row))
            &&& after.logs.len() <= LOG_LIMIT
            &&& newest_first(after.logs).len() == after.logs.len()
            &&& newest_first(after.logs)[0] == row
            &&& t.logs.len() < LOG_LIMIT ==> after.logs == t.logs.push(row)
            &&& after.proxies == t.proxies && after.rules == t.rules && after.settings == t.settings
                && after.known == t.known
        }),
{
    let c0 = CommandView::InsertLog(now, level, source, message);
    carry_out_one(c0, t);
    carry_out_more(seq![c0], CommandView::TrimLogs, t);
    assert(seq![c0].push(CommandView::TrimLogs) =~= seq![c0, CommandView::TrimLogs]);
}

/// The log is read by number, the latest line first: of the lines that are there, those with the
/// greatest numbers, as many as may be kept. Trimming the log keeps just these.
pub proof fn log_is_read_by_number(t: StoreView)
    requires
        sound(t),
    ensures
        ({
            let r = newest_first(t.logs);
            &&& r.len() == (if t.logs.len() > LOG_LIMIT {
                LOG_LIMIT as nat
            } else {
                t.logs.len()
            })
            &&& forall|i: int, j: int|
                0 <= i < j < r.len() ==> (#[trigger] r[i]).id > (#[trigger] r[j]).id
            &&& forall|i: int| 0 <= i < r.len() ==> t.logs.contains(#[trigger] r[i])
            &&& forall|x: LogRowView, i: int|
                #![trigger t.logs.contains(x), r[i]]
                t.logs.contains(x) && !r.contains(x) && 0 <= i < r.len() ==> x.id < r[i].id
            &&& effect(CommandView::TrimLogs, t) == Some(StoreView { logs: r.reverse(), ..t })
            &&& newest_first(r.reverse()) == r
        }),
{
    let kept = last_logs(t.logs);
    let r = newest_first(t.logs);
    let from = t.logs.len() - kept.len();
    assert forall|i: int| 0 <= i < kept.len() implies #[trigger] kept[i] == t.logs[from + i] by {}
    assert(r.reverse() =~= kept);
    assert(last_logs(kept) =~= kept);
    assert forall|i: int| 0 <= i < r.len() implies t.logs.contains(#[trigger] r[i]) by {
        assert(r[i] == t.logs[from + (kept.len() - 1 - i)]);
    }
    assert forall|x: LogRowView, i: int|
        #![trigger t.logs.contains(x), r[i]]
        t.logs.contains(x) && !r.contains(x) && 0 <= i < r.len() implies x.id < r[i].id by {
        let a = choose|a: int| 0 <= a < t.logs.len() && t.logs[a] == x;
        if a >= from {
            assert(kept[a - from] == x);
            assert(r[kept.len() - 1 - (a - from)] == x);
        }
        assert(r[i] == t.logs[from + (kept.len() - 1 - i)]);
    }
}

/// No number is given to two log lines: whatever was done since, a line that is added gets a
/// greater number than every line that was there before.
pub proof fn no_log_number_is_given_twice(
    t: StoreView,
    cs: Seq<CommandView>,
    now: i64,
    level: Seq<char>,
    source: Seq<char>,
    message: Seq<char>,
)
    requires
        sound(t),
    ensures
        effect(
            CommandView::InsertLog(now, level, source, message),
            carried_out(cs, t).0,
        ) matches Some(after) ==> after.logs.len() > 0 && forall|i: int|
            0 <= i < t.logs.len() ==> (#[trigger] t.logs[i]).id < after.logs.last().id,
{
    operations_keep_the_tables_sound(cs, t);
}

/// The log is empty when it was cleared.
pub proof fn cleared_log_is_empty(t: StoreView)
    ensures
        carried_out(seq![CommandView::ClearLogs], t) == (StoreView { logs: Seq::empty(), ..t }, true),
{
    carry_out_one(CommandView::ClearLogs, t);
}

/// Creating the tables of a store that has them changes nothing.
pub proof fn creation_changes_nothing(t: StoreView)
    ensures
        carried_out(creation(), t) == (t, true),
{
    reveal_with_fuel(carried_out, 6);
    let c = creation();
    assert(c.drop_last().drop_last().drop_last().drop_last().drop_last() =~= Seq::<
        CommandView,
    >::empty());
}

}

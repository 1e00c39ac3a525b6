//! The state of the engine, and what starting, stopping and configuring it does to the state.
use crate::address::SocketAddr;
use crate::model::{
    views, ConnectionInfo, ConnectionView, ProxyConfig, ProxyView, Rule, RuleView,
};
use crate::owner::{CacheView, PidCache};
use crate::text::same_text;
use crate::traffic::{lists, ProcessTrafficEntry, Totals, TrafficStats};
use std::collections::HashMap;
use vstd::prelude::*;
use vstd::string::*;

verus! {

broadcast use vstd::std_specs::hash::group_hash_axioms;

// ---------------------------------------------------------------------------------------------
// Redirections
// ---------------------------------------------------------------------------------------------

/// Where a redirected connection was going, and the proxy that is to carry it.
pub struct Redirect {
    pub dest: SocketAddr,
    pub proxy_id: String,
}

/// The model of a [`Redirect`].
pub struct RedirectView {
    pub dest: (Seq<u8>, u16),
    pub proxy_id: Seq<char>,
}

impl View for Redirect {
    type V = RedirectView;

    open spec fn view(&self) -> RedirectView {
        RedirectView { dest: self.dest@, proxy_id: self.proxy_id@ }
    }
}

/// The redirected connections by their local port.
pub struct RedirectTable {
    entries: HashMap<u16, Redirect>,
}

/// The model of the table: the redirection of each port.
impl View for RedirectTable {
    type V = Map<u16, RedirectView>;

    closed spec fn view(&self) -> Map<u16, RedirectView> {
        self.entries@.map_values(|e: Redirect| e@)
    }
}

impl RedirectTable {
    /// A table of no redirections.
    pub fn new() -> (r: Self)
        ensures
            r@ == Map::<u16, RedirectView>::empty(),
    {
        let r = RedirectTable { entries: HashMap::new() };
        assert(r@ =~= Map::<u16, RedirectView>::empty());
        r
    }

    /// The redirection of a port.
    pub fn get(&self, port: u16) -> (r: Option<Redirect>)
        ensures
            match r {
                Some(e) => self@.contains_key(port) && e@ == self@[port],
                None => !self@.contains_key(port),
            },
    {
        match self.entries.get(&port) {
            Some(e) => Some(Redirect { dest: e.dest, proxy_id: e.proxy_id.clone() }),
            None => None,
        }
    }

    /// Redirects a port.
    pub fn insert(&mut self, port: u16, dest: SocketAddr, proxy_id: String)
        ensures
            final(self)@ == old(self)@.insert(
                port,
                RedirectView { dest: dest@, proxy_id: proxy_id@ },
            ),
    {
        let e = Redirect { dest, proxy_id };
        self.entries.insert(port, e);
        assert(self@ =~= old(self)@.insert(port, e@));
    }

    /// Forgets every redirection.
    pub fn clear(&mut self)
        ensures
            final(self)@ == Map::<u16, RedirectView>::empty(),
    {
        self.entries = HashMap::new();
        assert(self@ =~= Map::<u16, RedirectView>::empty());
    }
}

// ---------------------------------------------------------------------------------------------
// State
// ---------------------------------------------------------------------------------------------

/// The state of the engine.
pub struct EngineState {
    pub running: bool,
    /// The pool of proxies.
    pub config: Vec<ProxyConfig>,
    pub rules: Vec<Rule>,
    pub pid_cache: PidCache,
    pub active_connections: Vec<ConnectionInfo>,
    pub redirect_table: RedirectTable,
    pub bypass_local: bool,
    pub proxy_dns: bool,
    pub autostart: bool,
    pub minimize_to_tray: bool,
    pub traffic_stats: TrafficStats,
}

/// The model of an [`EngineState`].
#[verifier::ext_equal]
pub struct EngineView {
    pub running: bool,
    pub config: Seq<ProxyView>,
    pub rules: Seq<RuleView>,
    pub pid_cache: Map<u16, CacheView>,
    pub active_connections: Seq<ConnectionView>,
    pub redirect_table: Map<u16, RedirectView>,
    pub bypass_local: bool,
    pub proxy_dns: bool,
    pub autostart: bool,
    pub minimize_to_tray: bool,
    pub traffic_stats: Map<Seq<char>, Totals>,
}

impl View for EngineState {
    type V = EngineView;

    open spec fn view(&self) -> EngineView {
        EngineView {
            running: self.running,
            config: views(self.config@),
            rules: views(self.rules@),
            pid_cache: self.pid_cache@,
            active_connections: views(self.active_connections@),
            redirect_table: self.redirect_table@,
            bypass_local: self.bypass_local,
            proxy_dns: self.proxy_dns,
            autostart: self.autostart,
            minimize_to_tray: self.minimize_to_tray,
            traffic_stats: self.traffic_stats@,
        }
    }
}

/// The state of an engine that was never started or configured.
pub open spec fn initial_engine() -> EngineView {
    EngineView {
        running: false,
        config: Seq::empty(),
        rules: Seq::empty(),
        pid_cache: Map::empty(),
        active_connections: Seq::empty(),
        redirect_table: Map::empty(),
        bypass_local: true,
        proxy_dns: true,
        autostart: true,
        minimize_to_tray: true,
        traffic_stats: Map::empty(),
    }
}

/// The state when the engine was told to start with these proxies, rules and flags.
pub open spec fn started(
    s: EngineView,
    config: Seq<ProxyView>,
    rules: Seq<RuleView>,
    bypass_local: bool,
    proxy_dns: bool,
) -> EngineView {
    EngineView { running: true, config, rules, bypass_local, proxy_dns, ..s }
}

/// The state when the engine was stopped: redirections, connections and statistics are gone.
pub open spec fn stopped(s: EngineView) -> EngineView {
    EngineView {
        running: false,
        redirect_table: Map::empty(),
        active_connections: Seq::empty(),
        traffic_stats: Map::empty(),
        ..s
    }
}

/// The flags that are saved between runs.
#[derive(Clone, Copy, Debug, PartialEq, Eq, Structural)]
pub struct Settings {
    pub proxy_dns: bool,
    pub bypass_local: bool,
    pub autostart: bool,
    pub minimize_to_tray: bool,
    pub start_minimized: bool,
}

/// The state with the saved flags in force.
pub open spec fn configured(s: EngineView, f: Settings) -> EngineView {
    EngineView {
        proxy_dns: f.proxy_dns,
        bypass_local: f.bypass_local,
        autostart: f.autostart,
        minimize_to_tray: f.minimize_to_tray,
        ..s
    }
}

/// What to do when the program starts.
#[derive(Clone, Copy, Debug, PartialEq, Eq, Structural)]
pub struct StartupPlan {
    /// Hide the window.
    pub hide_window: bool,
    /// Start the engine.
    pub start_engine: bool,
}

/// A line for the application's log.
#[derive(Debug, PartialEq, Eq)]
pub struct LogLine {
    pub level: String,
    pub source: String,
    pub message: String,
}

impl EngineState {
    /// The parts of the state agree.
    pub open spec fn wf(&self) -> bool {
        self.traffic_stats.wf()
    }

    /// The state of an engine that was never started or configured.
    pub fn new() -> (r: Self)
        ensures
            r.wf(),
            r@ == initial_engine(),
    {
        let r = EngineState {
            running: false,
            config: Vec::new(),
            rules: Vec::new(),
            pid_cache: PidCache::new(),
            active_connections: Vec::new(),
            redirect_table: RedirectTable::new(),
            bypass_local: true,
            proxy_dns: true,
            autostart: true,
            minimize_to_tray: true,
            traffic_stats: TrafficStats::new(),
        };
        assert(r@ =~= initial_engine());
        r
    }

    /// Whether the engine runs.
    pub fn is_engine_running(&self) -> (r: bool)
        ensures
            r == self@.running,
    {
        self.running
    }

    /// Puts proxies, rules and flags in force and marks the engine as running. An engine that
    /// runs already is left as it is.
    pub fn start_engine(
        &mut self,
        config: Vec<ProxyConfig>,
        rules: Vec<Rule>,
        bypass_local: bool,
        proxy_dns: bool,
    ) -> (r: Result<(), String>)
        ensures
            r is Ok <==> !old(self)@.running,
            match r {
                Ok(()) => final(self)@ == started(
                    old(self)@,
                    views(config@),
                    views(rules@),
                    bypass_local,
                    proxy_dns,
                ),
                Err(e) => e@ == "Engine is already running"@ && final(self)@ == old(self)@,
            },
            final(self).wf() == old(self).wf(),
    {
        if self.running {
            return Err("Engine is already running".to_string());
        }
        self.config = config;
        self.rules = rules;
        self.bypass_local = bypass_local;
        self.proxy_dns = proxy_dns;
        self.running = true;
        Ok(())
    }

    /// Concludes a start: where the capture of packets could not begin, the engine does not run,
    /// and the reason is handed on.
    pub fn conclude_start(&mut self, capture: Result<(), String>) -> (r: Result<String, String>)
        ensures
            match capture {
                Ok(()) => r matches Ok(m) && m@ == "Engine started successfully"@ && final(self)@
                    == old(self)@,
                Err(e) => r == Err::<String, String>(e) && final(self)@ == (EngineView {
                    running: false,
                    ..old(self)@
                }),
            },
            final(self).wf() == old(self).wf(),
    {
        match capture {
            Ok(()) => Ok("Engine started successfully".to_string()),
            Err(e) => {
                self.running = false;
                Err(e)
            },
        }
    }

    /// Stops the engine and forgets what belonged to the run.
    pub fn stop_engine(&mut self) -> (r: Result<String, String>)
        ensures
            r is Ok <==> old(self)@.running,
            match r {
                Ok(m) => m@ == "Engine stopped"@ && final(self)@ == stopped(old(self)@),
                Err(e) => e@ == "Engine is not running"@ && final(self)@ == old(self)@,
            },
            old(self).wf() ==> final(self).wf(),
    {
        if !self.running {
            return Err("Engine is not running".to_string());
        }
        self.running = false;
        self.redirect_table.clear();
        self.active_connections = Vec::new();
        self.traffic_stats.clear();
        assert(self@ =~= stopped(old(self)@));
        Ok("Engine stopped".to_string())
    }

    /// Puts the stored proxies in force.
    pub fn set_config(&mut self, proxies: Vec<ProxyConfig>)
        ensures
            final(self)@ == (EngineView { config: views(proxies@), ..old(self)@ }),
            final(self).wf() == old(self).wf(),
    {
        self.config = proxies;
    }

    /// Puts the stored rules in force.
    pub fn set_rules(&mut self, rules: Vec<Rule>)
        ensures
            final(self)@ == (EngineView { rules: views(rules@), ..old(self)@ }),
            final(self).wf() == old(self).wf(),
    {
        self.rules = rules;
    }

    /// Puts the saved flags in force.
    pub fn apply_settings(&mut self, f: Settings)
        ensures
            final(self)@ == configured(old(self)@, f),
            final(self).wf() == old(self).wf(),
    {
        self.proxy_dns = f.proxy_dns;
        self.bypass_local = f.bypass_local;
        self.autostart = f.autostart;
        self.minimize_to_tray = f.minimize_to_tray;
    }

    /// Restores what was saved, and says what to do then: the window is hidden where the program
    /// starts minimized, and the engine starts where that is wanted and there are proxies.
    pub fn restore(&mut self, f: Settings, proxies: Vec<ProxyConfig>, rules: Vec<Rule>) -> (r:
        StartupPlan)
        ensures
            final(self)@ == (EngineView {
                config: views(proxies@),
                rules: views(rules@),
                ..configured(old(self)@, f)
            }),
            final(self).wf() == old(self).wf(),
            r.hide_window == f.start_minimized,
            r.start_engine == (f.autostart && proxies@.len() > 0),
    {
        let start_engine: bool = f.autostart && proxies.len() > 0;
        self.apply_settings(f);
        self.config = proxies;
        self.rules = rules;
        StartupPlan { hide_window: f.start_minimized, start_engine }
    }

    /// Marks the engine as running when it starts with the program.
    pub fn begin_autostart(&mut self)
        ensures
            final(self)@ == (EngineView { running: true, ..old(self)@ }),
            final(self).wf() == old(self).wf(),
    {
        self.running = true;
    }

    /// Concludes a start with the program, and says what to log: where the capture of packets
    /// could not begin, the engine does not run.
    pub fn conclude_autostart(&mut self, capture: &Result<(), String>) -> (r: LogLine)
        ensures
            r.source@ == "Core"@,
            match *capture {
                Ok(()) => {
                    &&& r.level@ == "info"@
                    &&& r.message@ == "Движок автозапущен при старте приложения (Rust)"@
                    &&& final(self)@ == old(self)@
                },
                Err(e) => {
                    &&& r.level@ == "error"@
                    &&& r.message@ == "Ошибка автозапуска движка в Rust: "@ + e@
                    &&& final(self)@ == (EngineView { running: false, ..old(self)@ })
                },
            },
            final(self).wf() == old(self).wf(),
    {
        match capture {
            Ok(()) => LogLine {
                level: "info".to_string(),
                source: "Core".to_string(),
                message: "Движок автозапущен при старте приложения (Rust)".to_string(),
            },
            Err(e) => {
                self.running = false;
                let mut message = "Ошибка автозапуска движка в Rust: ".to_string();
                message.append(e.as_str());
                LogLine { level: "error".to_string(), source: "Core".to_string(), message }
            },
        }
    }

    /// Whether closing the window only hides it.
    pub fn closes_to_tray(&self) -> (r: bool)
        ensures
            r == self@.minimize_to_tray,
    {
        self.minimize_to_tray
    }
}

/// Whether the relays are to be started: only once the capture of packets began.
pub fn starts_relays(capture: &Result<(), String>) -> (r: bool)
    ensures
        r == (*capture is Ok),
{
    capture.is_ok()
}

/// The traffic of every process, as it is now.
pub fn get_traffic_stats_snapshot(state: &EngineState) -> (r: TrafficStats)
    requires
        state.wf(),
    ensures
        r.wf(),
        r@ == state@.traffic_stats,
{
    state.traffic_stats.clone()
}

/// The traffic of every process, as a list with one entry for each.
pub fn get_traffic_stats(state: &EngineState) -> (r: Vec<ProcessTrafficEntry>)
    requires
        state.wf(),
    ensures
        lists(r@, state@.traffic_stats),
{
    get_traffic_stats_snapshot(state).to_entries()
}

/// What an entry of the tray menu does.
#[derive(Clone, Copy, Debug, PartialEq, Eq, Structural)]
pub enum TrayAction {
    Show,
    Quit,
    Nothing,
}

/// What the entry of the tray menu with this identifier does.
pub fn tray_action(id: &str) -> (r: TrayAction)
    ensures
        r == (if id@ == "show"@ {
            TrayAction::Show
        } else if id@ == "quit"@ {
            TrayAction::Quit
        } else {
            TrayAction::Nothing
        }),
{
    if same_text(id, "show") {
        TrayAction::Show
    } else if same_text(id, "quit") {
        TrayAction::Quit
    } else {
        TrayAction::Nothing
    }
}

/// What is noted when the operating system was asked to raise the priority of the program, and
/// answered with `result`: zero says that it did not.
pub fn set_high_priority(result: i32) -> (r: String)
    ensures
        r@ == (if result == 0 {
            "Failed to set process priority class to High"@
        } else {
            "Process priority class set to High"@
        }),
{
    if result == 0 {
        "Failed to set process priority class to High".to_string()
    } else {
        "Process priority class set to High".to_string()
    }
}

// ---------------------------------------------------------------------------------------------
// Laws
// ---------------------------------------------------------------------------------------------

/// Stopping an engine that was started keeps its proxies, rules and flags, and leaves nothing of
/// the run behind.
pub proof fn stop_keeps_configuration(
    s: EngineView,
    config: Seq<ProxyView>,
    rules: Seq<RuleView>,
    bypass_local: bool,
    proxy_dns: bool,
)
    ensures
        ({
            let after = stopped(started(s, config, rules, bypass_local, proxy_dns));
            &&& !after.running
            &&& after.config == config
            &&& after.rules == rules
            &&& after.bypass_local == bypass_local
            &&& after.proxy_dns == proxy_dns
            &&& after.autostart == s.autostart
            &&& after.minimize_to_tray == s.minimize_to_tray
            &&& after.pid_cache == s.pid_cache
            &&& after.redirect_table == Map::<u16, RedirectView>::empty()
            &&& after.traffic_stats == Map::<Seq<char>, Totals>::empty()
        }),
{
}

/// A run that follows a stop begins with no redirection and no statistics, whatever the state
/// was before the stop.
pub proof fn next_run_begins_clean(
    s: EngineView,
    config: Seq<ProxyView>,
    rules: Seq<RuleView>,
    bypass_local: bool,
    proxy_dns: bool,
)
    ensures
        ({
            let after = started(stopped(s), config, rules, bypass_local, proxy_dns);
            &&& after.running
            &&& after.redirect_table == Map::<u16, RedirectView>::empty()
            &&& after.active_connections == Seq::<ConnectionView>::empty()
            &&& after.traffic_stats == Map::<Seq<char>, Totals>::empty()
        }),
{
}

/// The model of the engine tells all of its state.
pub proof fn engine_model_is_whole(e: EngineState, r: Redirect)
    ensures
        e@.running == e.running,
        e@.config == views(e.config@),
        e@.rules == views(e.rules@),
        e@.pid_cache == e.pid_cache@,
        e@.active_connections == views(e.active_connections@),
        e@.redirect_table == e.redirect_table@,
        e@.bypass_local == e.bypass_local,
        e@.proxy_dns == e.proxy_dns,
        e@.autostart == e.autostart,
        e@.minimize_to_tray == e.minimize_to_tray,
        e@.traffic_stats == e.traffic_stats@,
        r@.dest == r.dest@,
        r@.proxy_id == r.proxy_id@,
{
}

/// Starting the engine puts the proxies, rules and flags in force that it was given, and keeps
/// what it knows of ports, redirections and traffic; putting saved flags in force changes these
/// flags alone.
pub proof fn starting_and_configuring_change_no_more(
    s: EngineView,
    config: Seq<ProxyView>,
    rules: Seq<RuleView>,
    bypass_local: bool,
    proxy_dns: bool,
    f: Settings,
)
    ensures
        ({
            let a = started(s, config, rules, bypass_local, proxy_dns);
            &&& a.running
            &&& a.config == config
            &&& a.rules == rules
            &&& a.bypass_local == bypass_local
            &&& a.proxy_dns == proxy_dns
            &&& a.autostart == s.autostart
            &&& a.minimize_to_tray == s.minimize_to_tray
            &&& a.pid_cache == s.pid_cache
            &&& a.redirect_table == s.redirect_table
            &&& a.active_connections == s.active_connections
            &&& a.traffic_stats == s.traffic_stats
        }),
        ({
            let c = configured(s, f);
            &&& c.proxy_dns == f.proxy_dns
            &&& c.bypass_local == f.bypass_local
            &&& c.autostart == f.autostart
            &&& c.minimize_to_tray == f.minimize_to_tray
            &&& c == (EngineView {
                proxy_dns: c.proxy_dns,
                bypass_local: c.bypass_local,
                autostart: c.autostart,
                minimize_to_tray: c.minimize_to_tray,
                ..s
            })
        }),
{
}

/// An engine that was never started does not run, has nothing configured and knows of nothing; its
/// four flags are set.
pub proof fn new_engines_are_empty()
    ensures
        ({
            let e = initial_engine();
            &&& !e.running
            &&& e.config.len() == 0
            &&& e.rules.len() == 0
            &&& e.active_connections.len() == 0
            &&& forall|port: u16| !(#[trigger] e.pid_cache.dom().contains(port))
            &&& forall|port: u16| !(#[trigger] e.redirect_table.dom().contains(port))
            &&& forall|name: Seq<char>| !(#[trigger] e.traffic_stats.dom().contains(name))
            &&& e.bypass_local && e.proxy_dns && e.autostart && e.minimize_to_tray
        }),
{
}

/// Stopping the engine forgets its redirections, connections and statistics, and keeps what is
/// configured and what it knows of ports.
pub proof fn stopping_forgets_the_run_alone(s: EngineView)
    ensures
        ({
            let a = stopped(s);
            &&& !a.running
            &&& forall|port: u16| !(#[trigger] a.redirect_table.dom().contains(port))
            &&& a.active_connections.len() == 0
            &&& forall|name: Seq<char>| !(#[trigger] a.traffic_stats.dom().contains(name))
            &&& a.config == s.config
            &&& a.rules == s.rules
            &&& a.pid_cache == s.pid_cache
            &&& a.bypass_local == s.bypass_local
            &&& a.proxy_dns == s.proxy_dns
            &&& a.autostart == s.autostart
            &&& a.minimize_to_tray == s.minimize_to_tray
        }),
{
}

}

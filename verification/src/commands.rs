//! What the user is told.
use crate::engine::Settings;
use crate::model::{views, ProxyConfig, Rule};
use vstd::prelude::*;
use vstd::string::*;

verus! {

/// What failed when the store was used.
#[derive(Clone, Copy, Debug, PartialEq, Eq, Structural)]
pub enum StoreFailure {
    Open,
    LoadProxies,
    LoadRules,
    LoadSettings,
    SaveProxy,
    DeleteProxy,
    Reload,
    SaveRules,
    SaveSettings,
    LoadKnownProcesses,
    SaveKnownProcess,
    LoadLogs,
    ClearLogs,
}

/// What the user is told of a failure, before the details.
pub open spec fn failure_text(f: StoreFailure) -> Seq<char> {
    match f {
        StoreFailure::Open => "DB Error: "@,
        StoreFailure::LoadProxies => "DB Load Proxies Error: "@,
        StoreFailure::LoadRules => "DB Load Rules Error: "@,
        StoreFailure::LoadSettings => "DB Load Settings Error: "@,
        StoreFailure::SaveProxy => "DB Save Proxy Error: "@,
        StoreFailure::DeleteProxy => "DB Delete Proxy Error: "@,
        StoreFailure::Reload => "DB Reload Error: "@,
        StoreFailure::SaveRules => "DB Save Rules Error: "@,
        StoreFailure::SaveSettings => "DB Save Settings Error: "@,
        StoreFailure::LoadKnownProcesses => "DB Load Known Processes Error: "@,
        StoreFailure::SaveKnownProcess => "DB Save Known Process Error: "@,
        StoreFailure::LoadLogs => "DB Load Logs Error: "@,
        StoreFailure::ClearLogs => "DB Clear Logs Error: "@,
    }
}

/// What the user is told of a failure.
pub fn failure_message(f: StoreFailure, details: &str) -> (r: String)
    ensures
        r@ == failure_text(f) + details@,
{
    let mut s = match f {
        StoreFailure::Open => "DB Error: ".to_string(),
        StoreFailure::LoadProxies => "DB Load Proxies Error: ".to_string(),
        StoreFailure::LoadRules => "DB Load Rules Error: ".to_string(),
        StoreFailure::LoadSettings => "DB Load Settings Error: ".to_string(),
        StoreFailure::SaveProxy => "DB Save Proxy Error: ".to_string(),
        StoreFailure::DeleteProxy => "DB Delete Proxy Error: ".to_string(),
        StoreFailure::Reload => "DB Reload Error: ".to_string(),
        StoreFailure::SaveRules => "DB Save Rules Error: ".to_string(),
        StoreFailure::SaveSettings => "DB Save Settings Error: ".to_string(),
        StoreFailure::LoadKnownProcesses => "DB Load Known Processes Error: ".to_string(),
        StoreFailure::SaveKnownProcess => "DB Save Known Process Error: ".to_string(),
        StoreFailure::LoadLogs => "DB Load Logs Error: ".to_string(),
        StoreFailure::ClearLogs => "DB Clear Logs Error: ".to_string(),
    };
    s.append(details);
    s
}

/// What was done.
#[derive(Clone, Copy, Debug, PartialEq, Eq, Structural)]
pub enum Notice {
    ProxySaved,
    ProxyDeleted,
    RulesUpdated,
    SettingsSaved,
    LogsCleared,
}

/// What the user is told when something was done.
pub open spec fn notice_text(n: Notice) -> Seq<char> {
    match n {
        Notice::ProxySaved => "Proxy saved to database"@,
        Notice::ProxyDeleted => "Proxy deleted from database"@,
        Notice::RulesUpdated => "Rules updated successfully"@,
        Notice::SettingsSaved => "Routing settings saved"@,
        Notice::LogsCleared => "Logs cleared"@,
    }
}

/// What the user is told when something was done.
pub fn notice_message(n: Notice) -> (r: String)
    ensures
        r@ == notice_text(n),
{
    match n {
        Notice::ProxySaved => "Proxy saved to database".to_string(),
        Notice::ProxyDeleted => "Proxy deleted from database".to_string(),
        Notice::RulesUpdated => "Rules updated successfully".to_string(),
        Notice::SettingsSaved => "Routing settings saved".to_string(),
        Notice::LogsCleared => "Logs cleared".to_string(),
    }
}

/// All that is saved between runs.
#[derive(Debug)]
pub struct SavedData {
    pub proxies: Vec<ProxyConfig>,
    pub rules: Vec<Rule>,
    pub proxy_dns: bool,
    pub bypass_local: bool,
    pub autostart: bool,
    pub minimize_to_tray: bool,
    pub start_minimized: bool,
}

/// All that is saved between runs, put together.
pub fn get_saved_data(proxies: Vec<ProxyConfig>, rules: Vec<Rule>, f: Settings) -> (r: SavedData)
    ensures
        views(r.proxies@) == views(proxies@),
        views(r.rules@) == views(rules@),
        r.proxy_dns == f.proxy_dns,
        r.bypass_local == f.bypass_local,
        r.autostart == f.autostart,
        r.minimize_to_tray == f.minimize_to_tray,
        r.start_minimized == f.start_minimized,
{
    SavedData {
        proxies,
        rules,
        proxy_dns: f.proxy_dns,
        bypass_local: f.bypass_local,
        autostart: f.autostart,
        minimize_to_tray: f.minimize_to_tray,
        start_minimized: f.start_minimized,
    }
}

/// What the user is told of a failure names the operation that failed, between `DB` and `Error`;
/// of a store that cannot be opened nothing stands between the two.
pub proof fn failures_name_the_operation(f: StoreFailure)
    ensures
        f is Open ==> failure_text(f) == "DB Error: "@,
        !(f is Open) ==> failure_text(f) == "DB "@ + (match f {
            StoreFailure::LoadProxies => "Load Proxies"@,
            StoreFailure::LoadRules => "Load Rules"@,
            StoreFailure::LoadSettings => "Load Settings"@,
            StoreFailure::SaveProxy => "Save Proxy"@,
            StoreFailure::DeleteProxy => "Delete Proxy"@,
            StoreFailure::Reload => "Reload"@,
            StoreFailure::SaveRules => "Save Rules"@,
            StoreFailure::SaveSettings => "Save Settings"@,
            StoreFailure::LoadKnownProcesses => "Load Known Processes"@,
            StoreFailure::SaveKnownProcess => "Save Known Process"@,
            StoreFailure::LoadLogs => "Load Logs"@,
            _ => "Clear Logs"@,
        }) + " Error: "@,
{
    reveal_strlit("DB ");
    reveal_strlit(" Error: ");
    match f {
        StoreFailure::Open => {},
        StoreFailure::LoadProxies => {
            reveal_strlit("Load Proxies");
            reveal_strlit("DB Load Proxies Error: ");
            assert(failure_text(f) =~= "DB "@ + "Load Proxies"@ + " Error: "@);
        },
        StoreFailure::LoadRules => {
            reveal_strlit("Load Rules");
            reveal_strlit("DB Load Rules Error: ");
            assert(failure_text(f) =~= "DB "@ + "Load Rules"@ + " Error: "@);
        },
        StoreFailure::LoadSettings => {
            reveal_strlit("Load Settings");
            reveal_strlit("DB Load Settings Error: ");
            assert(failure_text(f) =~= "DB "@ + "Load Settings"@ + " Error: "@);
        },
        StoreFailure::SaveProxy => {
            reveal_strlit("Save Proxy");
            reveal_strlit("DB Save Proxy Error: ");
            assert(failure_text(f) =~= "DB "@ + "Save Proxy"@ + " Error: "@);
        },
        StoreFailure::DeleteProxy => {
            reveal_strlit("Delete Proxy");
            reveal_strlit("DB Delete Proxy Error: ");
            assert(failure_text(f) =~= "DB "@ + "Delete Proxy"@ + " Error: "@);
        },
        StoreFailure::Reload => {
            reveal_strlit("Reload");
            reveal_strlit("DB Reload Error: ");
            assert(failure_text(f) =~= "DB "@ + "Reload"@ + " Error: "@);
        },
        StoreFailure::SaveRules => {
            reveal_strlit("Save Rules");
            reveal_strlit("DB Save Rules Error: ");
            assert(failure_text(f) =~= "DB "@ + "Save Rules"@ + " Error: "@);
        },
        StoreFailure::SaveSettings => {
            reveal_strlit("Save Settings");
            reveal_strlit("DB Save Settings Error: ");
            assert(failure_text(f) =~= "DB "@ + "Save Settings"@ + " Error: "@);
        },
        StoreFailure::LoadKnownProcesses => {
            reveal_strlit("Load Known Processes");
            reveal_strlit("DB Load Known Processes Error: ");
            assert(failure_text(f) =~= "DB "@ + "Load Known Processes"@ + " Error: "@);
        },
        StoreFailure::SaveKnownProcess => {
            reveal_strlit("Save Known Process");
            reveal_strlit("DB Save Known Process Error: ");
            assert(failure_text(f) =~= "DB "@ + "Save Known Process"@ + " Error: "@);
        },
        StoreFailure::LoadLogs => {
            reveal_strlit("Load Logs");
            reveal_strlit("DB Load Logs Error: ");
            assert(failure_text(f) =~= "DB "@ + "Load Logs"@ + " Error: "@);
        },
        StoreFailure::ClearLogs => {
            reveal_strlit("Clear Logs");
            reveal_strlit("DB Clear Logs Error: ");
            assert(failure_text(f) =~= "DB "@ + "Clear Logs"@ + " Error: "@);
        },
    }
}

/// What the user is told of a thing that was done names the thing and what became of it, so that
/// no two are told alike.
pub proof fn notices_name_what_was_done(n: Notice)
    ensures
        n is ProxySaved ==> notice_text(n) == "Proxy"@ + " saved"@ + " to database"@,
        n is ProxyDeleted ==> notice_text(n) == "Proxy"@ + " deleted"@ + " from database"@,
        n is RulesUpdated ==> notice_text(n) == "Rules"@ + " updated"@ + " successfully"@,
        n is SettingsSaved ==> notice_text(n) == "Routing settings"@ + " saved"@,
        n is LogsCleared ==> notice_text(n) == "Logs"@ + " cleared"@,
{
    reveal_strlit("Proxy");
    reveal_strlit(" saved");
    match n {
        Notice::ProxySaved => {
            reveal_strlit(" to database");
            reveal_strlit("Proxy saved to database");
            assert(notice_text(n) =~= "Proxy"@ + " saved"@ + " to database"@);
        },
        Notice::ProxyDeleted => {
            reveal_strlit(" deleted");
            reveal_strlit(" from database");
            reveal_strlit("Proxy deleted from database");
            assert(notice_text(n) =~= "Proxy"@ + " deleted"@ + " from database"@);
        },
        Notice::RulesUpdated => {
            reveal_strlit("Rules");
            reveal_strlit(" updated");
            reveal_strlit(" successfully");
            reveal_strlit("Rules updated successfully");
            assert(notice_text(n) =~= "Rules"@ + " updated"@ + " successfully"@);
        },
        Notice::SettingsSaved => {
            reveal_strlit("Routing settings");
            reveal_strlit("Routing settings saved");
            assert(notice_text(n) =~= "Routing settings"@ + " saved"@);
        },
        Notice::LogsCleared => {
            reveal_strlit("Logs");
            reveal_strlit(" cleared");
            reveal_strlit("Logs cleared");
            assert(notice_text(n) =~= "Logs"@ + " cleared"@);
        },
    }
}

}

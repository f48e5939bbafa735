//! The application state shared by the commands, and the decisions the
//! commands make around enabling, disabling and reapplying the bypass.
use vstd::prelude::*;
use std::sync::Mutex;
use crate::config::Config;
use crate::text::{append_str, copy_strings, string_views};

verus! {

/// `std::sync::Mutex`, holding the application state between commands.
#[verifier::external_type_specification]
#[verifier::external_body]
#[verifier::reject_recursive_types(T)]
pub struct ExMutex<T: ?Sized>(std::sync::Mutex<T>);

/// The state shared by the commands.
pub struct AppState(pub Mutex<AppStateInner>);

/// The settings and the subnet list once read from disk.
pub struct AppStateInner {
    pub config: Config,
    /// Subnets cached in memory, so that a network change reads no file.
    pub subnets_cache: Option<Vec<String>>,
}

/// The tray icon shown.
#[derive(Clone, Copy, Debug, PartialEq, Eq, Structural)]
pub enum TrayState {
    Active,
    Inactive,
    Loading,
}

pub open spec fn cache_view(c: Option<Vec<String>>) -> Option<Seq<Seq<char>>> {
    match c {
        Some(v) => Some(string_views(v@)),
        None => None,
    }
}

impl AppStateInner {
    /// The settings, with no subnet list read yet.
    pub fn new(config: Config) -> (r: AppStateInner)
        ensures
            r.config == config,
            r.subnets_cache is None,
    {
        AppStateInner { config, subnets_cache: None }
    }

    /// The cached subnet list, if it was read already.
    pub fn cached_subnets(&self) -> (r: Option<Vec<String>>)
        ensures
            cache_view(r) == cache_view(self.subnets_cache),
    {
        match &self.subnets_cache {
            Some(v) => Some(copy_strings(v)),
            None => None,
        }
    }

    /// Keeps a freshly read list and hands it on; a read error is handed on
    /// and nothing is kept.
    pub fn cache_subnets(&mut self, loaded: Result<Vec<String>, String>) -> (r: Result<
        Vec<String>,
        String,
    >)
        ensures
            final(self).config == old(self).config,
            match loaded {
                Ok(v) => {
                    &&& r matches Ok(w) && string_views(w@) == string_views(v@)
                    &&& cache_view(final(self).subnets_cache) == Some(string_views(v@))
                },
                Err(e) => {
                    &&& r matches Err(x) && x@ == e@
                    &&& cache_view(final(self).subnets_cache) == cache_view(
                        old(self).subnets_cache,
                    )
                },
            },
    {
        match loaded {
            Ok(v) => {
                self.subnets_cache = Some(copy_strings(&v));
                Ok(v)
            },
            Err(e) => Err(e),
        }
    }

    /// After a download: the time of the update recorded, the cached list
    /// dropped (the next enable reads the new one).  Gives whether the
    /// bypass is on, so that it is applied again with the new list.
    pub fn mark_updated(&mut self, stamp: String) -> (r: bool)
        ensures
            r == old(self).config.bypass_enabled,
            final(self).config.last_updated matches Some(s) && s@ == stamp@,
            final(self).subnets_cache is None,
            final(self).config.bypass_enabled == old(self).config.bypass_enabled,
            final(self).config.autostart == old(self).config.autostart,
            final(self).config.update_schedule == old(self).config.update_schedule,
            final(self).config.gateway_override == old(self).config.gateway_override,
    {
        self.config.last_updated = Some(stamp);
        self.subnets_cache = None;
        self.config.bypass_enabled
    }
}

/// The value a mutex of the application state was created with.  A mutex
/// is opaque here: its contents change through its lock, so this is its
/// initial value only, not what it holds later.
pub uninterp spec fn created_with(m: Mutex<AppStateInner>) -> AppStateInner;

/// `std::sync::Mutex::new` on the application state: a new unlocked mutex
/// that holds `inner`, the value it was created with.
#[verifier::external_body]
fn state_lock(inner: AppStateInner) -> (r: Mutex<AppStateInner>)
    ensures
        created_with(r) == inner,
{
    Mutex::new(inner)
}

impl AppState {
    /// The shared state for the settings read at start: the settings, with
    /// no subnet list read yet.
    pub fn new(config: Config) -> (r: AppState)
        ensures
            created_with(r.0).config == config,
            created_with(r.0).subnets_cache is None,
    {
        AppState(state_lock(AppStateInner::new(config)))
    }
}

/// What the application does at start.
#[derive(Clone, Copy, Debug, PartialEq, Eq, Structural)]
pub enum LaunchPlan {
    /// No list is stored yet: show the window, download the list, record
    /// the time of the update and, once the download succeeded, enable the
    /// bypass.
    DownloadThenEnable,
    /// Apply the stored list again, as the bypass was on.
    EnableStored,
    /// Nothing to do.
    Idle,
}

/// The first launch (no stored list) downloads the list and then enables
/// the bypass; later launches enable it again only if it was on.
pub fn launch_plan(list_stored: bool, bypass_enabled: bool) -> (r: LaunchPlan)
    ensures
        !list_stored ==> r == LaunchPlan::DownloadThenEnable,
        list_stored && bypass_enabled ==> r == LaunchPlan::EnableStored,
        list_stored && !bypass_enabled ==> r == LaunchPlan::Idle,
{
    if !list_stored {
        LaunchPlan::DownloadThenEnable
    } else if bypass_enabled {
        LaunchPlan::EnableStored
    } else {
        LaunchPlan::Idle
    }
}

/// The gateway routes go through: the configured override, else the
/// detected gateway, else none (empty).
pub fn choose_gateway(gateway_override: &Option<String>, detected: Option<String>) -> (r: String)
    ensures
        r@ == match gateway_override {
            Some(g) => g@,
            None => match detected {
                Some(d) => d@,
                None => Seq::<char>::empty(),
            },
        },
{
    match gateway_override {
        Some(g) => g.clone(),
        None => match detected {
            Some(d) => d,
            None => String::new(),
        },
    }
}

/// Enabling needs a gateway.
pub fn check_enable_gateway(gateway: &str) -> (r: Result<(), String>)
    ensures
        gateway@.len() == 0 ==> (r matches Err(e) && e@
            == "Не удалось определить шлюз. Проверьте подключение к роутеру."@),
        gateway@.len() != 0 ==> r is Ok,
{
    if gateway.is_empty() {
        Err("Не удалось определить шлюз. Проверьте подключение к роутеру.".to_owned())
    } else {
        Ok(())
    }
}

/// Reapplying and clearing routes need a gateway.
pub fn check_gateway(gateway: &str) -> (r: Result<(), String>)
    ensures
        gateway@.len() == 0 ==> (r matches Err(e) && e@ == "Не удалось определить шлюз"@),
        gateway@.len() != 0 ==> r is Ok,
{
    if gateway.is_empty() {
        Err("Не удалось определить шлюз".to_owned())
    } else {
        Ok(())
    }
}

/// Enabling failed when a non-empty list gave no route at all.
pub fn check_routes_added(added: usize, total: usize, gateway: &str) -> (r: Result<(), String>)
    ensures
        added == 0 && total > 0 ==> (r matches Err(e) && e@ == "Не удалось добавить маршруты (шлюз: "@
            + gateway@ + "). Проверьте логи."@),
        !(added == 0 && total > 0) ==> r is Ok,
{
    if added == 0 && total > 0 {
        let mut msg = String::new();
        append_str(&mut msg, "Не удалось добавить маршруты (шлюз: ");
        append_str(&mut msg, gateway);
        append_str(&mut msg, "). Проверьте логи.");
        Err(msg)
    } else {
        Ok(())
    }
}

/// The `schtasks` arguments that make the application start at logon with
/// the highest rights (`enabled`), or that remove that task.
pub fn autostart_task_args(enabled: bool, exe_path: &str) -> (r: Vec<String>)
    ensures
        string_views(r@) == if enabled {
            seq![
                "/create"@,
                "/tn"@,
                "RuBypass"@,
                "/tr"@,
                exe_path@,
                "/sc"@,
                "onlogon"@,
                "/rl"@,
                "highest"@,
                "/f"@,
            ]
        } else {
            seq!["/delete"@, "/tn"@, "RuBypass"@, "/f"@]
        },
{
    let mut v: Vec<String> = Vec::new();
    if enabled {
        v.push("/create".to_owned());
        v.push("/tn".to_owned());
        v.push("RuBypass".to_owned());
        v.push("/tr".to_owned());
        v.push(exe_path.to_owned());
        v.push("/sc".to_owned());
        v.push("onlogon".to_owned());
        v.push("/rl".to_owned());
        v.push("highest".to_owned());
        v.push("/f".to_owned());
    } else {
        v.push("/delete".to_owned());
        v.push("/tn".to_owned());
        v.push("RuBypass".to_owned());
        v.push("/f".to_owned());
    }
    assert(string_views(v@) =~= if enabled {
        seq![
            "/create"@,
            "/tn"@,
            "RuBypass"@,
            "/tr"@,
            exe_path@,
            "/sc"@,
            "onlogon"@,
            "/rl"@,
            "highest"@,
            "/f"@,
        ]
    } else {
        seq!["/delete"@, "/tn"@, "RuBypass"@, "/f"@]
    });
    v
}

/// Creating the logon task must succeed.
pub fn check_task_created(success: bool) -> (r: Result<(), String>)
    ensures
        success ==> r is Ok,
        !success ==> (r matches Err(e) && e@ == "Не удалось создать задачу автозапуска"@),
{
    if success {
        Ok(())
    } else {
        Err("Не удалось создать задачу автозапуска".to_owned())
    }
}

/// The icon file for a tray state.
pub fn tray_icon_file(state: TrayState) -> (r: &'static str)
    ensures
        r@ == match state {
            TrayState::Active => "icon-green.png"@,
            TrayState::Inactive => "icon-red.png"@,
            TrayState::Loading => "spinner_0.png"@,
        },
{
    match state {
        TrayState::Active => "icon-green.png",
        TrayState::Inactive => "icon-red.png",
        TrayState::Loading => "spinner_0.png",
    }
}

/// The spinner has this many frames.
pub const SPINNER_FRAMES: usize = 8;

/// The spinner frame after `frame`, going round.
pub fn next_spinner_frame(frame: usize) -> (r: usize)
    requires
        frame < SPINNER_FRAMES,
    ensures
        r == (frame + 1) % (SPINNER_FRAMES as int),
{
    (frame + 1) % SPINNER_FRAMES
}

} // verus!

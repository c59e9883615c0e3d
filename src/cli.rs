//! Start-up configuration: what to do and where to serve from.
use vstd::prelude::*;

verus! {

/// Port used when the configuration names none.
pub const DEFAULT_PORT: u16 = 1729;

/// What the program is asked to do.
#[derive(Debug, Clone, Copy, PartialEq, Eq, Structural)]
pub enum Action {
    RegisterService,
    RemoveService,
    RunService,
    RunDirect,
}

/// The configuration the program runs with.
#[derive(Debug)]
pub struct Config {
    pub action: Action,
    pub port: u16,
    pub html_path: String,
}

/// The configuration as read from the configuration file; every entry may be missing.
#[derive(Debug, Clone)]
pub struct ConfigBuilder {
    pub action: Option<String>,
    pub port: Option<u16>,
    pub html_path: Option<String>,
}

/// The action chosen by number: 1 registers the service, 2 removes it, 3 runs it, and
/// any other number runs directly.
pub open spec fn action_for(choice: int) -> Action {
    if choice == 1 {
        Action::RegisterService
    } else if choice == 2 {
        Action::RemoveService
    } else if choice == 3 {
        Action::RunService
    } else {
        Action::RunDirect
    }
}

/// The action chosen by number, as offered on the terminal.
pub fn action_from_choice(choice: isize) -> (r: Action)
    ensures
        r == action_for(choice as int),
{
    match choice {
        1 => Action::RegisterService,
        2 => Action::RemoveService,
        3 => Action::RunService,
        _ => Action::RunDirect,
    }
}

/// The configuration for `action` from the file's entries: the port defaults to
/// `DEFAULT_PORT`, and the HTML path is required, so `None` comes back without it.
pub fn create_config(cfg: ConfigBuilder, action: Action) -> (r: Option<Config>)
    ensures
        cfg.html_path is None <==> r is None,
        r matches Some(c) ==> c.action == action && c.html_path == cfg.html_path->0 && c.port == (
        match cfg.port {
            Some(p) => p,
            None => DEFAULT_PORT,
        }),
{
    let port = match cfg.port {
        Some(p) => p,
        None => DEFAULT_PORT,
    };
    match cfg.html_path {
        Some(html_path) => Some(Config { action, port, html_path }),
        None => None,
    }
}

} // verus!

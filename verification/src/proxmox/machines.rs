//! The provider itself: its configuration, its credential, its operations.
use vstd::prelude::*;
use vstd::string::*;

use crate::address::Address;
use crate::json::Json;
use crate::paths::maybe;
use crate::provider::{
    CreateRequest, Finding, MachineRef, MachineSummary, ProviderError, RegisteredGuest,
};
use crate::proxmox::api::{replies_view, run_view, within, Answer, Reply, Run, RunView};
use crate::proxmox::config::{
    check_permissions, configured, from_table, mode_problem, problem, read_token, token_problem,
    Config, ConfigError,
};
use crate::proxmox::diagnose::{diagnosed, found_run, judge};
use crate::proxmox::ops::{
    addressed, create_id, created, destroy_machine, find_address, list_machines, list_run, listed,
    move_expiry, renewed, start_machine, started, stop_machine, stopped, taken_down,
};
use crate::scan::trim;
use crate::text::{dec, decimal};
use crate::time::{Duration, SystemTime};

verus! {

/// What was found where the credential's file should be.
pub enum TokenFile {
    /// Not even its permissions can be told.
    Unreadable(String),
    /// The permission bits of the file, and its text or why it cannot be read.
    Found { mode: u32, text: Result<String, String> },
}

/// What is wrong with the credential's file.
pub open spec fn file_problem(f: TokenFile, path: Seq<char>) -> Option<Seq<char>> {
    match f {
        TokenFile::Unreadable(e) => Some("token file "@ + path + ": "@ + e@),
        TokenFile::Found { mode, text } => match mode_problem(mode, path) {
            Some(m) => Some(m),
            None => match text {
                Ok(t) => token_problem(t@, path),
                Err(e) => Some("token file "@ + path + ": "@ + e@),
            },
        },
    }
}

pub struct Proxmox {
    pub config: Config,
    pub token: String,
    pub poll_interval: Duration,
}

/// The machine that an identifier is.
pub open spec fn machine_run(r: Run<Result<MachineRef, ProviderError>>) -> RunView<
    Answer<MachineRef<Seq<char>>>,
> {
    match r {
        Run::Ask(q) => RunView::Ask(q@),
        Run::Done(Ok(m), n) => RunView::Done(Ok(m@), n as int),
        Run::Done(Err(e), n) => RunView::Done(Err(e@), n as int),
    }
}

pub open spec fn as_machine(r: RunView<Answer<u32>>) -> RunView<Answer<MachineRef<Seq<char>>>> {
    match r {
        RunView::Ask(q) => RunView::Ask(q),
        RunView::Done(Ok(id), n) => RunView::Done(Ok(MachineRef(dec(id as nat))), n),
        RunView::Done(Err(e), n) => RunView::Done(Err(e), n),
    }
}

fn token_in(f: &TokenFile, path: &str) -> (r: Result<String, ConfigError>)
    ensures
        match r {
            Ok(t) => file_problem(*f, path@) is None && (f matches TokenFile::Found {
                mode,
                text: Ok(text),
            } && t@ == trim(text@)),
            Err(e) => file_problem(*f, path@) == Some(e@),
        },
{
    match f {
        TokenFile::Unreadable(e) => Err(
            ConfigError(
                "token file ".to_string().concat(path).concat(": ").concat(e.as_str()),
            ),
        ),
        TokenFile::Found { mode, text } => match check_permissions(*mode, path) {
            Err(e) => Err(e),
            Ok(_) => match text {
                Ok(t) => read_token(t.as_str(), path),
                Err(e) => Err(
                    ConfigError(
                        "token file ".to_string().concat(path).concat(": ").concat(e.as_str()),
                    ),
                ),
            },
        },
    }
}

impl Proxmox {
    /// Build a provider from the `[proxmox]` table the core carried through.
    /// `ca_present` and `token` say what was found where the table points.
    pub fn from_table(
        table: &Json,
        home: &Option<String>,
        ca_present: bool,
        token: &TokenFile,
    ) -> (r: Result<Proxmox, ProviderError>)
        ensures
            match r {
                Ok(p) => problem(table@, maybe(*home), ca_present) is None && configured(
                    p.config,
                    table@,
                    maybe(*home),
                ) && file_problem(*token, p.config.token_file@) is None && (
                token matches TokenFile::Found { mode, text: Ok(text) } && p.token@ == trim(text@))
                    && p.poll_interval@ == 2_000_000_000,
                Err(e) => match problem(table@, maybe(*home), ca_present) {
                    Some(m) => e@ == ProviderError::Config(m),
                    None => exists|c: Config| #[trigger]
                        configured(c, table@, maybe(*home)) && file_problem(*token, c.token_file@)
                            is Some && e@ == ProviderError::Config(
                            file_problem(*token, c.token_file@)->0,
                        ),
                },
            },
    {
        let config = match from_table(table, home, ca_present) {
            Ok(c) => c,
            Err(e) => {
                return Err(ProviderError::Config(e.message()));
            },
        };
        match token_in(token, config.token_file.as_str()) {
            Ok(t) => Ok(Proxmox::with_token(config, t)),
            Err(e) => {
                assert(configured(config, table@, maybe(*home)));
                Err(ProviderError::Config(e.message()))
            },
        }
    }

    pub fn with_token(config: Config, token: String) -> (r: Proxmox)
        ensures
            r.config == config,
            r.token == token,
            r.poll_interval@ == 2_000_000_000,
    {
        Proxmox { config, token, poll_interval: Duration::from_secs(2) }
    }

    /// Poll faster than production would. For tests only, so that a suite
    /// exercising task handling does not spend its life asleep.
    pub fn set_poll_interval(&mut self, d: Duration)
        ensures
            final(self).poll_interval == d,
            final(self).config == old(self).config,
            final(self).token == old(self).token,
    {
        self.poll_interval = d;
    }

    pub fn name(&self) -> (r: String)
        ensures
            r@ == "proxmox"@,
    {
        "proxmox".to_string()
    }

    pub fn create(&self, req: &CreateRequest, replies: &Vec<Reply>) -> (run: Run<
        Result<MachineRef, ProviderError>,
    >)
        ensures
            machine_run(run) == as_machine(created(self.config, *req, replies_view(replies@))),
            within(run, 0, replies@),
    {
        match create_id(&self.config, req, replies) {
            Run::Ask(q) => Run::Ask(q),
            Run::Done(a, n) => match a {
                Ok(id) => Run::Done(Ok(MachineRef(decimal(id as u64))), n),
                Err(e) => Run::Done(Err(e), n),
            },
        }
    }

    pub fn set_expiry(&self, machine: &MachineRef, at: SystemTime, replies: &Vec<Reply>) -> (run:
        Run<Result<(), ProviderError>>)
        ensures
            run_view(run) == renewed(self.config, machine@.0, at, replies_view(replies@)),
            within(run, 0, replies@),
    {
        move_expiry(&self.config, machine, at, replies)
    }

    pub fn start(&self, machine: &MachineRef, replies: &Vec<Reply>) -> (run: Run<
        Result<(), ProviderError>,
    >)
        ensures
            run_view(run) == started(self.config, machine@.0, replies_view(replies@)),
            within(run, 0, replies@),
    {
        start_machine(&self.config, machine, replies)
    }

    pub fn stop(&self, machine: &MachineRef, replies: &Vec<Reply>) -> (run: Run<
        Result<(), ProviderError>,
    >)
        ensures
            run_view(run) == stopped(self.config, machine@.0, replies_view(replies@)),
            within(run, 0, replies@),
    {
        stop_machine(&self.config, machine, replies)
    }

    pub fn destroy(&self, machine: &MachineRef, replies: &Vec<Reply>) -> (run: Run<
        Result<(), ProviderError>,
    >)
        ensures
            run_view(run) == taken_down(self.config, machine@.0, replies_view(replies@)),
            within(run, 0, replies@),
    {
        destroy_machine(&self.config, machine, replies)
    }

    pub fn address(&self, machine: &MachineRef, replies: &Vec<Reply>) -> (run: Run<
        Result<Option<Address>, ProviderError>,
    >)
        ensures
            run_view(run) == addressed(self.config, machine@.0, replies_view(replies@)),
            within(run, 0, replies@),
    {
        find_address(&self.config, machine, replies)
    }

    pub fn list(&self, replies: &Vec<Reply>) -> (run: Run<
        Result<Vec<MachineSummary>, ProviderError>,
    >)
        ensures
            list_run(run) == listed(self.config, replies_view(replies@)),
            within(run, 0, replies@),
    {
        list_machines(&self.config, replies)
    }

    pub fn diagnose(
        &self,
        guests: &Vec<RegisteredGuest>,
        now: &SystemTime,
        replies: &Vec<Reply>,
    ) -> (run: Run<Vec<Finding>>)
        ensures
            found_run(run) == diagnosed(self.config, guests@, *now, replies_view(replies@)),
            within(run, 0, replies@),
    {
        judge(&self.config, guests, now, replies)
    }
}

}

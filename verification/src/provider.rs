//! The provider seam.
//!
//! A provider creates, tags, inspects and destroys machines. Everything below
//! is deliberately free of hypervisor vocabulary -- no numeric identifiers, no
//! identifier ranges, no resource pools, no task handles, no API tokens. Those
//! are a provider's business.
//!
//! The types here hold their texts as `S`: a `String` when they are used, a
//! sequence of characters when a contract speaks of them.
use vstd::prelude::*;
use vstd::string::*;

use crate::address::Address;
use crate::text::{dec, decimal, same};
use crate::time::SystemTime;

verus! {

/// A machine, as the provider that made it refers to it.
///
/// Opaque on purpose. The core stores it, hands it back, and never parses it:
/// the moment anything outside a provider tries to read structure out of this
/// string, the seam has stopped meaning anything.
#[derive(Debug, PartialEq, Eq, PartialOrd, Ord, Hash)]
pub struct MachineRef<S = String>(pub S);

impl MachineRef<String> {
    pub open spec fn view(&self) -> MachineRef<Seq<char>> {
        MachineRef(self.0@)
    }

    pub fn new(s: &str) -> (r: MachineRef)
        ensures
            r@ == MachineRef(s@),
    {
        MachineRef(s.to_string())
    }

    pub fn as_str(&self) -> (r: &str)
        ensures
            r@ == self@.0,
    {
        self.0.as_str()
    }

    pub fn copy(&self) -> (r: MachineRef)
        ensures
            r@ == self@,
    {
        MachineRef(self.0.clone())
    }

    /// Is it the same machine?
    pub fn is(&self, other: &MachineRef) -> (r: bool)
        ensures
            r == (self@ == other@),
    {
        same(self.0.as_str(), other.0.as_str())
    }
}

/// What to make.
#[derive(Debug)]
pub struct CreateRequest<S = String> {
    /// A human-facing name for the machine. Providers may have to mangle it.
    pub name: S,
    /// Which template to make it from. Opaque to the core: this came out of
    /// the site registry and means whatever the provider says it means.
    pub template: S,
    pub cores: Option<u16>,
    pub ram_gb: Option<u16>,
    /// A blank disk to attach, in gibibytes, for the session's storage pool.
    ///
    /// Attached rather than carried by the template on purpose. Where cloning
    /// is a byte-for-byte copy, a data disk in the template is copied in full
    /// on every session whether or not anything is on it -- so this is created,
    /// not copied, and its size is a per-session decision rather than one
    /// frozen when the template was built.
    ///
    /// `None` means the template already provides one.
    pub data_disk_gb: Option<u32>,
    /// When this machine stops being anybody's responsibility.
    ///
    /// Part of creation rather than a follow-up call, so that the window
    /// between "machine exists" and "machine has an expiry" is as small as the
    /// provider's API allows. That window is the design's one unrecoverable
    /// state: a machine nothing will ever collect.
    pub expires_at: SystemTime,
}

impl CreateRequest<String> {
    pub open spec fn view(&self) -> CreateRequest<Seq<char>> {
        CreateRequest {
            name: self.name@,
            template: self.template@,
            cores: self.cores,
            ram_gb: self.ram_gb,
            data_disk_gb: self.data_disk_gb,
            expires_at: self.expires_at,
        }
    }
}

/// A machine the provider is responsible for.
#[derive(Debug)]
pub struct MachineSummary<S = String> {
    pub machine: MachineRef<S>,
    pub name: S,
    /// `None` means the machine carries no expiry at all. That is not a
    /// machine with plenty of time left -- it is a machine no sweeper will
    /// ever collect, and it wants a human.
    pub expires_at: Option<SystemTime>,
    pub running: bool,
}

impl MachineSummary<String> {
    pub open spec fn view(&self) -> MachineSummary<Seq<char>> {
        MachineSummary {
            machine: self.machine@,
            name: self.name@,
            expires_at: self.expires_at,
            running: self.running,
        }
    }
}

/// The machine is among those listed.
pub open spec fn lists(machines: Seq<MachineSummary>, machine: MachineRef<Seq<char>>) -> bool {
    exists|i: int| 0 <= i < machines.len() && (#[trigger] machines[i]).machine@ == machine
}

/// Is the machine among those listed?
pub fn is_listed(machines: &Vec<MachineSummary>, machine: &MachineRef) -> (r: bool)
    ensures
        r == lists(machines@, machine@),
{
    let mut i: usize = 0;
    while i < machines.len()
        invariant
            i <= machines@.len(),
            forall|j: int| 0 <= j < i ==> (#[trigger] machines@[j]).machine@ != machine@,
        decreases machines@.len() - i,
    {
        if machines[i].machine.is(machine) {
            assert(machines@[i as int].machine@ == machine@);
            return true;
        }
        i += 1;
    }
    false
}

#[derive(Debug)]
pub enum ProviderError<S = String> {
    /// An invariant refused the operation before any call was made. This is
    /// the provider protecting the cluster from the caller, and it is never a
    /// transient condition to retry.
    Refused(S),
    /// The credential was rejected, or does not carry the needed right.
    Unauthorized(S),
    NotFound(S),
    /// An operation was still running when we stopped waiting.
    ///
    /// Distinct from every other failure on purpose. A timeout means the state
    /// of the machine is *unknown*, so the caller must not respond by
    /// destroying things; the expiry tag and the sweeper exist for exactly
    /// this case.
    Timeout(S),
    /// The request never got an answer.
    Transport(S),
    /// The provider answered, and the answer was a refusal or a surprise.
    Api { status: u16, message: S },
    /// The provider's own configuration is wrong or missing.
    Config(S),
}

/// What a provider's failure says.
pub open spec fn error_text(e: ProviderError<Seq<char>>) -> Seq<char> {
    match e {
        ProviderError::Refused(m) => "refused: "@ + m,
        ProviderError::Unauthorized(m) => "not authorized: "@ + m,
        ProviderError::NotFound(m) => "not found: "@ + m,
        ProviderError::Timeout(m) => "timed out: "@ + m,
        ProviderError::Transport(m) => "transport failure: "@ + m,
        ProviderError::Api { status, message } => "api error "@ + dec(status as nat) + ": "@
            + message,
        ProviderError::Config(m) => "provider configuration: "@ + m,
    }
}

impl ProviderError<String> {
    pub open spec fn view(&self) -> ProviderError<Seq<char>> {
        match self {
            ProviderError::Refused(m) => ProviderError::Refused(m@),
            ProviderError::Unauthorized(m) => ProviderError::Unauthorized(m@),
            ProviderError::NotFound(m) => ProviderError::NotFound(m@),
            ProviderError::Timeout(m) => ProviderError::Timeout(m@),
            ProviderError::Transport(m) => ProviderError::Transport(m@),
            ProviderError::Api { status, message } => ProviderError::Api {
                status: *status,
                message: message@,
            },
            ProviderError::Config(m) => ProviderError::Config(m@),
        }
    }

    pub fn message(&self) -> (r: String)
        ensures
            r@ == error_text(self@),
    {
        match self {
            ProviderError::Refused(m) => "refused: ".to_string().concat(m.as_str()),
            ProviderError::Unauthorized(m) => "not authorized: ".to_string().concat(m.as_str()),
            ProviderError::NotFound(m) => "not found: ".to_string().concat(m.as_str()),
            ProviderError::Timeout(m) => "timed out: ".to_string().concat(m.as_str()),
            ProviderError::Transport(m) => "transport failure: ".to_string().concat(m.as_str()),
            ProviderError::Api { status, message } => "api error ".to_string().concat(
                decimal(*status as u64).as_str(),
            ).concat(": ").concat(message.as_str()),
            ProviderError::Config(m) => "provider configuration: ".to_string().concat(m.as_str()),
        }
    }

    pub fn copy(&self) -> (r: ProviderError)
        ensures
            r@ == self@,
    {
        match self {
            ProviderError::Refused(m) => ProviderError::Refused(m.clone()),
            ProviderError::Unauthorized(m) => ProviderError::Unauthorized(m.clone()),
            ProviderError::NotFound(m) => ProviderError::NotFound(m.clone()),
            ProviderError::Timeout(m) => ProviderError::Timeout(m.clone()),
            ProviderError::Transport(m) => ProviderError::Transport(m.clone()),
            ProviderError::Api { status, message } => ProviderError::Api {
                status: *status,
                message: message.clone(),
            },
            ProviderError::Config(m) => ProviderError::Config(m.clone()),
        }
    }
}

/// How one check came out.
#[derive(Debug, Clone, Copy, PartialEq, Eq, Structural)]
pub enum Health {
    Fine,
    Warn,
    Fail,
}

/// One thing a diagnosis found.
#[derive(Debug)]
pub struct Finding<S = String> {
    pub label: S,
    pub health: Health,
    pub detail: S,
}

impl Finding<String> {
    pub open spec fn view(&self) -> Finding<Seq<char>> {
        Finding { label: self.label@, health: self.health, detail: self.detail@ }
    }
}

/// A guest the site registers, and the template it is made from.
#[derive(Debug)]
pub struct RegisteredGuest<S = String> {
    pub name: S,
    pub template: S,
}

impl RegisteredGuest<String> {
    pub open spec fn view(&self) -> RegisteredGuest<Seq<char>> {
        RegisteredGuest { name: self.name@, template: self.template@ }
    }
}

pub type ProviderResult<T> = std::result::Result<T, ProviderError>;

/// What a provider does for the rest of the program.
pub trait Provider {
    /// The name this provider is selected by in site configuration.
    fn name(&self) -> String;

    /// Make a machine from a template, carrying an expiry from the moment it
    /// exists. Implementations that cannot set both atomically should set the
    /// expiry as their very next call, and destroy what they made if that
    /// fails -- they know the identifier, so leaking it would be carelessness.
    fn create(&self, req: &CreateRequest) -> ProviderResult<MachineRef>;

    /// Move the expiry. Implementations must preserve any other metadata the
    /// machine carries: this is a shared cluster and reaper is not the only
    /// thing that writes tags.
    fn set_expiry(&self, machine: &MachineRef, at: SystemTime) -> ProviderResult<()>;

    fn start(&self, machine: &MachineRef) -> ProviderResult<()>;

    fn stop(&self, machine: &MachineRef) -> ProviderResult<()>;

    fn destroy(&self, machine: &MachineRef) -> ProviderResult<()>;

    /// The machine's address, or `None` if it does not have one yet. Must not
    /// depend on DNS or mDNS.
    fn address(&self, machine: &MachineRef) -> ProviderResult<Option<Address>>;

    /// Every machine this provider is responsible for -- which is narrower
    /// than every machine that exists. A provider scoped to part of a shared
    /// cluster reports only its own part.
    fn list(&self) -> ProviderResult<Vec<MachineSummary>>;

    /// Judge everything a session would need, and say what is wrong.
    fn diagnose(&self, guests: &Vec<RegisteredGuest>) -> Vec<Finding>;
}

}

//! Turning a configured provider name into an implementation.
//!
//! Something has to map the name in site configuration to a concrete
//! implementation, and wherever that mapping lives will contain the name of
//! every supported hypervisor. It lives here.
//!
//! Adding a provider means adding a module and one arm below. There is no
//! dynamic loading, no ABI and no registration protocol, and there should not
//! be: the door is meant to be ajar, not open.
use vstd::prelude::*;
use vstd::string::*;

use crate::json::Json;
use crate::paths::maybe;
use crate::provider::ProviderError;
use crate::proxmox::config::{configured, problem, Config};
use crate::proxmox::machines::{file_problem, Proxmox, TokenFile};
use crate::scan::trim;
use crate::text::{debug_text, quoted, same};

verus! {

/// The provider names this build supports, as they are offered to a reader who
/// got the name wrong.
pub const AVAILABLE: &'static str = "proxmox";

/// A provider that a name selected.
pub enum Selected {
    Proxmox(Proxmox),
}

/// What is said of a name that selects nothing.
pub open spec fn unknown(name: Seq<char>) -> Seq<char> {
    "no provider named "@ + debug_text(name) + " in this build; available: "@ + AVAILABLE@
}

/// Build the named provider from its own slice of site configuration, and from
/// what was found where that slice points.
pub fn build(
    name: &str,
    table: &Json,
    home: &Option<String>,
    ca_present: bool,
    token: &TokenFile,
) -> (r: Result<Selected, ProviderError>)
    ensures
        name@ != "proxmox"@ ==> (r matches Err(e) && e@ == ProviderError::Config(unknown(name@))),
        name@ == "proxmox"@ ==> match r {
            Ok(Selected::Proxmox(p)) => problem(table@, maybe(*home), ca_present) is None
                && configured(p.config, table@, maybe(*home)) && file_problem(
                *token,
                p.config.token_file@,
            ) is None && (token matches TokenFile::Found { mode, text: Ok(text) } && p.token@
                == trim(text@))
                && p.poll_interval@ == 2_000_000_000,
            Err(e) => match problem(table@, maybe(*home), ca_present) {
                Some(m) => e@ == ProviderError::Config(m),
                None => exists|c: Config| #[trigger]
                    configured(c, table@, maybe(*home)) && file_problem(*token, c.token_file@)
                        is Some && e@ == ProviderError::Config(
                        file_problem(*token, c.token_file@)->0,
                    ),
            },
        },
{
    if same(name, "proxmox") {
        match Proxmox::from_table(table, home, ca_present, token) {
            Ok(p) => Ok(Selected::Proxmox(p)),
            Err(e) => Err(e),
        }
    } else {
        Err(
            ProviderError::Config(
                "no provider named ".to_string().concat(quoted(name).as_str()).concat(
                    " in this build; available: ",
                ).concat(AVAILABLE),
            ),
        )
    }
}

}

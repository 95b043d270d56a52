//! Start-at-login: what the service's status means for the app.

use vstd::prelude::*;

verus! {

/// The status of the app's login item, as the service management framework
/// reports it.
#[derive(Debug, PartialEq, Eq, Structural)]
pub enum LoginStatus {
    NotRegistered,
    Enabled,
    RequiresApproval,
    NotFound,
}

/// What follows an attempt to enable or disable start-at-login.
#[derive(Debug, PartialEq, Eq, Structural)]
pub struct LoginOutcome {
    /// Open the login items pane of System Settings, where the user must
    /// approve the item.
    pub open_settings: bool,
    /// Whether start-at-login is now on (what the menu check mark shows).
    pub enabled: bool,
}

/// Whether the status means start-at-login is on.
pub fn is_enabled(status: LoginStatus) -> (enabled: bool)
    ensures
        enabled == (status == LoginStatus::Enabled),
{
    status == LoginStatus::Enabled
}

/// The outcome of asking to set start-at-login to `enable`, given the status
/// read afterwards: settings open only when enabling needs approval.
pub fn login_outcome(enable: bool, status: LoginStatus) -> (outcome: LoginOutcome)
    ensures
        outcome.open_settings == (enable && status == LoginStatus::RequiresApproval),
        outcome.enabled == (status == LoginStatus::Enabled),
{
    let open_settings = enable && status == LoginStatus::RequiresApproval;
    LoginOutcome { open_settings, enabled: status == LoginStatus::Enabled }
}

} // verus!

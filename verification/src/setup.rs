//! The start-up of the Cloudflare integration as a state machine: the
//! program performs each action (an API call, a check or installation of the
//! `cloudflared` service, the first sync) and hands back what came of it.
use vstd::prelude::*;

verus! {

/// Where the set-up stands.
#[derive(Debug, Clone, Copy, PartialEq, Eq, Structural)]
pub enum SetupState {
    /// Nothing done yet.
    Start,
    /// Waiting for the new tunnel to be created.
    CreatingTunnel,
    /// Waiting for the new tunnel's connector token.
    FetchingToken,
    /// Waiting for the credentials to be written to the configuration.
    SavingCredentials,
    /// Waiting to learn whether `cloudflared` is installed.
    CheckingInstalled,
    /// Waiting to learn whether the `cloudflared` service runs.
    CheckingRunning,
    /// Waiting for the service installation.
    Installing,
    /// Waiting for the first sync.
    Syncing,
    /// Set up: the sync is ready for use.
    Ready,
    /// Given up after a failure: the integration stays off.
    Abandoned,
}

/// What came of the last action.
#[derive(Debug, Clone, Copy, PartialEq, Eq, Structural)]
pub enum SetupEvent {
    /// The set-up begins; whether the configuration already names a tunnel.
    Begin { has_tunnel_id: bool },
    /// Creating the tunnel succeeded or failed.
    TunnelCreated { ok: bool },
    /// Fetching the connector token succeeded or failed.
    TokenFetched { ok: bool },
    /// Saving the credentials succeeded or failed.
    CredentialsSaved { ok: bool },
    /// Whether the `cloudflared` binary was found.
    InstalledChecked { installed: bool },
    /// Whether the `cloudflared` service runs.
    RunningChecked { running: bool },
    /// Installing the service succeeded or failed.
    InstallFinished { ok: bool },
    /// The first sync is done.
    SyncFinished,
}

/// What the program does next.
#[derive(Debug, Clone, Copy, PartialEq, Eq, Structural)]
pub enum SetupAction {
    /// Create a tunnel with a fresh secret.
    CreateTunnel,
    /// Fetch the new tunnel's connector token.
    FetchToken,
    /// Record the tunnel id and token in the configuration and save it.
    SaveCredentials,
    /// Check whether `cloudflared` is on the PATH.
    CheckInstalled,
    /// Check whether the `cloudflared` service runs.
    CheckRunning,
    /// Install and start the service with the tunnel token.
    InstallService,
    /// Run the first sync; `not_installed` and `install_failed` say which
    /// warning to give first.
    Sync { not_installed: bool, install_failed: bool },
    /// Use the sync from now on.
    Finish,
    /// Stop: the last step failed.
    GiveUp,
    /// The event does not belong to this state: nothing to do.
    Ignore,
}

/// One step of the set-up: a tunnel is created (then its token fetched and
/// saved) only when the configuration has no tunnel id; any failure there
/// gives up.  The service is installed only when `cloudflared` is installed
/// and not running; a missing binary or a failed installation is warned
/// about and the sync still runs.  An event that does not belong to the state
/// changes nothing.
pub open spec fn spec_setup_step(state: SetupState, event: SetupEvent) -> (SetupState, SetupAction) {
    match (state, event) {
        (SetupState::Start, SetupEvent::Begin { has_tunnel_id }) => if has_tunnel_id {
            (SetupState::CheckingInstalled, SetupAction::CheckInstalled)
        } else {
            (SetupState::CreatingTunnel, SetupAction::CreateTunnel)
        },
        (SetupState::CreatingTunnel, SetupEvent::TunnelCreated { ok }) => if ok {
            (SetupState::FetchingToken, SetupAction::FetchToken)
        } else {
            (SetupState::Abandoned, SetupAction::GiveUp)
        },
        (SetupState::FetchingToken, SetupEvent::TokenFetched { ok }) => if ok {
            (SetupState::SavingCredentials, SetupAction::SaveCredentials)
        } else {
            (SetupState::Abandoned, SetupAction::GiveUp)
        },
        (SetupState::SavingCredentials, SetupEvent::CredentialsSaved { ok }) => if ok {
            (SetupState::CheckingInstalled, SetupAction::CheckInstalled)
        } else {
            (SetupState::Abandoned, SetupAction::GiveUp)
        },
        (SetupState::CheckingInstalled, SetupEvent::InstalledChecked { installed }) => if installed {
            (SetupState::CheckingRunning, SetupAction::CheckRunning)
        } else {
            (SetupState::Syncing, SetupAction::Sync { not_installed: true, install_failed: false })
        },
        (SetupState::CheckingRunning, SetupEvent::RunningChecked { running }) => if running {
            (SetupState::Syncing, SetupAction::Sync { not_installed: false, install_failed: false })
        } else {
            (SetupState::Installing, SetupAction::InstallService)
        },
        (SetupState::Installing, SetupEvent::InstallFinished { ok }) => (
            SetupState::Syncing,
            SetupAction::Sync { not_installed: false, install_failed: !ok },
        ),
        (SetupState::Syncing, SetupEvent::SyncFinished) => (SetupState::Ready, SetupAction::Finish),
        _ => (state, SetupAction::Ignore),
    }
}

/// Advances the set-up by one event (see `spec_setup_step`).
pub fn cloudflare_setup_step(state: SetupState, event: SetupEvent) -> (r: (SetupState, SetupAction))
    ensures
        r == spec_setup_step(state, event),
{
    match (state, event) {
        (SetupState::Start, SetupEvent::Begin { has_tunnel_id }) => if has_tunnel_id {
            (SetupState::CheckingInstalled, SetupAction::CheckInstalled)
        } else {
            (SetupState::CreatingTunnel, SetupAction::CreateTunnel)
        },
        (SetupState::CreatingTunnel, SetupEvent::TunnelCreated { ok }) => if ok {
            (SetupState::FetchingToken, SetupAction::FetchToken)
        } else {
            (SetupState::Abandoned, SetupAction::GiveUp)
        },
        (SetupState::FetchingToken, SetupEvent::TokenFetched { ok }) => if ok {
            (SetupState::SavingCredentials, SetupAction::SaveCredentials)
        } else {
            (SetupState::Abandoned, SetupAction::GiveUp)
        },
        (SetupState::SavingCredentials, SetupEvent::CredentialsSaved { ok }) => if ok {
            (SetupState::CheckingInstalled, SetupAction::CheckInstalled)
        } else {
            (SetupState::Abandoned, SetupAction::GiveUp)
        },
        (SetupState::CheckingInstalled, SetupEvent::InstalledChecked { installed }) => if installed {
            (SetupState::CheckingRunning, SetupAction::CheckRunning)
        } else {
            (SetupState::Syncing, SetupAction::Sync { not_installed: true, install_failed: false })
        },
        (SetupState::CheckingRunning, SetupEvent::RunningChecked { running }) => if running {
            (SetupState::Syncing, SetupAction::Sync { not_installed: false, install_failed: false })
        } else {
            (SetupState::Installing, SetupAction::InstallService)
        },
        (SetupState::Installing, SetupEvent::InstallFinished { ok }) => (
            SetupState::Syncing,
            SetupAction::Sync { not_installed: false, install_failed: !ok },
        ),
        (SetupState::Syncing, SetupEvent::SyncFinished) => (SetupState::Ready, SetupAction::Finish),
        _ => (state, SetupAction::Ignore),
    }
}

/// The set-up never creates a tunnel when the configuration names one, and
/// never installs the service unless `cloudflared` is installed and was found
/// not running.
pub proof fn lemma_setup_creates_and_installs_only_when_needed(state: SetupState, event: SetupEvent)
    ensures
        event == (SetupEvent::Begin { has_tunnel_id: true }) ==> spec_setup_step(state, event).1
            != SetupAction::CreateTunnel,
        spec_setup_step(state, event).1 == SetupAction::InstallService ==> state
            == SetupState::CheckingRunning && event == (SetupEvent::RunningChecked { running: false }),
        spec_setup_step(state, event).1 == SetupAction::CheckRunning ==> event
            == (SetupEvent::InstalledChecked { installed: true }),
{
}

/// The set-up goes to the first sync whatever comes of the service: a
/// missing binary, a running service, and an installation that succeeded or
/// failed all lead to the sync (with the matching warning), and the sync is
/// then used.  It gives up only when creating the tunnel, fetching its token
/// or saving the credentials failed, and creates a tunnel only when the
/// configuration names none.
pub proof fn lemma_setup_outcomes(has_tunnel_id: bool, ok: bool, state: SetupState, event: SetupEvent)
    ensures
        spec_setup_step(SetupState::Start, SetupEvent::Begin { has_tunnel_id }) == if has_tunnel_id {
            (SetupState::CheckingInstalled, SetupAction::CheckInstalled)
        } else {
            (SetupState::CreatingTunnel, SetupAction::CreateTunnel)
        },
        spec_setup_step(SetupState::Installing, SetupEvent::InstallFinished { ok }) == (
            SetupState::Syncing,
            SetupAction::Sync { not_installed: false, install_failed: !ok },
        ),
        spec_setup_step(SetupState::CheckingInstalled, SetupEvent::InstalledChecked { installed: false })
            == (SetupState::Syncing, SetupAction::Sync { not_installed: true, install_failed: false }),
        spec_setup_step(SetupState::CheckingInstalled, SetupEvent::InstalledChecked { installed: true })
            == (SetupState::CheckingRunning, SetupAction::CheckRunning),
        spec_setup_step(SetupState::CheckingRunning, SetupEvent::RunningChecked { running: true }) == (
            SetupState::Syncing,
            SetupAction::Sync { not_installed: false, install_failed: false },
        ),
        spec_setup_step(SetupState::CheckingRunning, SetupEvent::RunningChecked { running: false }) == (
            SetupState::Installing,
            SetupAction::InstallService,
        ),
        spec_setup_step(SetupState::Syncing, SetupEvent::SyncFinished) == (
            SetupState::Ready,
            SetupAction::Finish,
        ),
        spec_setup_step(SetupState::CreatingTunnel, SetupEvent::TunnelCreated { ok: true }) == (
            SetupState::FetchingToken,
            SetupAction::FetchToken,
        ),
        spec_setup_step(SetupState::FetchingToken, SetupEvent::TokenFetched { ok: true }) == (
            SetupState::SavingCredentials,
            SetupAction::SaveCredentials,
        ),
        spec_setup_step(SetupState::SavingCredentials, SetupEvent::CredentialsSaved { ok: true }) == (
            SetupState::CheckingInstalled,
            SetupAction::CheckInstalled,
        ),
        spec_setup_step(state, event).1 == SetupAction::GiveUp <==> (
        (state == SetupState::CreatingTunnel && event == (SetupEvent::TunnelCreated { ok: false })) || (
        state == SetupState::FetchingToken && event == (SetupEvent::TokenFetched { ok: false })) || (
        state == SetupState::SavingCredentials && event == (SetupEvent::CredentialsSaved { ok: false }))),
        spec_setup_step(state, event).1 is Sync ==> spec_setup_step(state, event).0
            == SetupState::Syncing,
{
}

} // verus!

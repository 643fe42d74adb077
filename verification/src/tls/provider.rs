//! The provider of cryptography that a process shares.

use vstd::prelude::*;

verus! {

/// What to do about the provider of the process.
pub enum ProviderStep<P> {
    /// Take this provider.
    Take { provider: P },
    /// Install the pure provider for the process.
    Install,
    /// Take the provider that the process has now.
    TakeInstalled,
}

/// The provider of a process once the pure provider was installed where there was none.
pub open spec fn after_install<P>(slot: Option<P>, pure_provider: P) -> P {
    match slot {
        Some(provider) => provider,
        None => pure_provider,
    }
}

impl<P> ProviderStep<P> {
    /// Whether this step leaves a process that has the provider `slot` with the provider that
    /// it is to have, where installing puts `pure_provider` there.
    pub open spec fn settles(self, slot: Option<P>, pure_provider: P) -> bool {
        match self {
            ProviderStep::Take { provider } => slot == Some(provider) && provider == after_install(
                slot,
                pure_provider,
            ),
            ProviderStep::Install => slot is None && pure_provider == after_install(
                slot,
                pure_provider,
            ),
            ProviderStep::TakeInstalled => false,
        }
    }

    /// Starts with the provider that the process has, if it has one: that one is taken, and
    /// only where there is none the pure provider is installed.
    pub fn start(default: Option<P>) -> (step: Self)
        ensures
            match default {
                Some(provider) => step == (ProviderStep::Take { provider }),
                None => step is Install,
            },
            forall|pure_provider: P| #[trigger] step.settles(default, pure_provider),
    {
        match default {
            Some(provider) => ProviderStep::Take { provider },
            None => ProviderStep::Install,
        }
    }

    /// What is taken in a process that has the provider `slot`.
    pub open spec fn taken(self, slot: Option<P>) -> Option<P> {
        match self {
            ProviderStep::Take { provider } => Some(provider),
            ProviderStep::Install => None,
            ProviderStep::TakeInstalled => slot,
        }
    }

    /// Goes on after installing. Where another thread was first, installing fails and hands the
    /// refused provider back. Either way the process has a provider now, and that one is taken.
    pub fn installed(outcome: Result<(), P>) -> (step: Self)
        ensures
            match outcome {
                Ok(()) => step is TakeInstalled,
                Err(_) => step is TakeInstalled,
            },
            forall|slot: Option<P>| #[trigger] step.taken(slot) == slot,
    {
        match outcome {
            Ok(()) => ProviderStep::TakeInstalled,
            Err(_) => ProviderStep::TakeInstalled,
        }
    }
}

/// Installing the pure provider again changes nothing: a process keeps the provider that it
/// has.
pub proof fn law_install_is_idempotent<P>(slot: Option<P>, first: P, second: P)
    ensures
        after_install(Some(after_install(slot, first)), second) == after_install(slot, first),
        slot is Some ==> after_install(slot, first) == slot->0,
{
}

/// Whoever installs first, the provider of the process is taken: with `slot` what it has when
/// the pure provider is installed, that is `slot` where there is one, and the pure provider
/// otherwise.
pub proof fn law_the_provider_of_the_process_is_taken<P>(
    step: ProviderStep<P>,
    slot: Option<P>,
    pure_provider: P,
)
    requires
        step is TakeInstalled,
    ensures
        step.taken(Some(after_install(slot, pure_provider))) == Some(
            after_install(slot, pure_provider),
        ),
        slot is Some ==> step.taken(Some(after_install(slot, pure_provider))) == slot,
{
}

} // verus!

//! Setting up the state of the replicated service, when it is first installed and
//! after an upgrade.

use vstd::prelude::*;
use crate::store::{cose_view, CoseClient, State, StateView};

verus! {

/// Seconds between two refreshes of the agents' tokens where the arguments name
/// fewer than [`MIN_REFRESH_INTERVAL`].
pub const DEFAULT_REFRESH_INTERVAL: u64 = 3600;

/// The fewest seconds between two refreshes of the agents' tokens.
pub const MIN_REFRESH_INTERVAL: u64 = 10;

/// The service fee in cycles where the arguments name none.
pub const DEFAULT_SERVICE_FEE: u64 = 100_000_000;

/// The arguments of an installation.
#[derive(Debug)]
pub struct InitArgs {
    pub ecdsa_key_name: String,
    pub proxy_token_refresh_interval: u64,
    pub subnet_size: u64,
    pub service_fee: u64,
    pub cose: Option<CoseClient>,
}

/// The arguments of an upgrade: what is given replaces what is kept.
#[derive(Debug)]
pub struct UpgradeArgs {
    pub proxy_token_refresh_interval: Option<u64>,
    pub subnet_size: Option<u64>,
    pub service_fee: Option<u64>,
    pub cose: Option<CoseClient>,
}

/// The arguments of an installation or of an upgrade.
#[derive(Debug)]
pub enum ChainArgs {
    Init(InitArgs),
    Upgrade(UpgradeArgs),
}

/// Why the arguments are refused.
#[derive(Clone, Copy, Debug, PartialEq, Eq, Structural)]
pub enum InitError {
    /// An installation needs arguments.
    Missing,
    /// An installation was given the arguments of an upgrade.
    UpgradeOnInit,
    /// An upgrade was given the arguments of an installation.
    InitOnUpgrade,
    /// The refresh interval is shorter than [`MIN_REFRESH_INTERVAL`].
    ShortInterval,
}

impl InitError {
    /// The text that describes the error.
    pub fn message(&self) -> (s: String)
        ensures
            s@ == match *self {
                InitError::Missing => "init args is missing"@,
                InitError::UpgradeOnInit => "cannot initialize the canister with an Upgrade args. Please provide an Init args."@,
                InitError::InitOnUpgrade => "cannot upgrade the canister with an Init args. Please provide an Upgrade args."@,
                InitError::ShortInterval => "proxy_token_refresh_interval must be at least 10 seconds"@,
            },
    {
        match self {
            InitError::Missing => "init args is missing".to_string(),
            InitError::UpgradeOnInit => "cannot initialize the canister with an Upgrade args. Please provide an Init args.".to_string(),
            InitError::InitOnUpgrade => "cannot upgrade the canister with an Init args. Please provide an Upgrade args.".to_string(),
            InitError::ShortInterval => "proxy_token_refresh_interval must be at least 10 seconds".to_string(),
        }
    }
}

/// The refresh interval of a fresh installation: the given one where it is long
/// enough, else an hour.
pub open spec fn installed_interval(given: u64) -> u64 {
    if given >= MIN_REFRESH_INTERVAL {
        given
    } else {
        DEFAULT_REFRESH_INTERVAL
    }
}

/// The service fee of a fresh installation: the given one, or the default for zero.
pub open spec fn installed_fee(given: u64) -> u64 {
    if given > 0 {
        given
    } else {
        DEFAULT_SERVICE_FEE
    }
}

/// Sets up the state of a fresh installation. There must be arguments, and they
/// must be those of an installation; else nothing changes.
pub fn init(state: &mut State, args: Option<ChainArgs>) -> (r: Result<(), InitError>)
    ensures
        match args {
            None => r == Err::<(), InitError>(InitError::Missing) && final(state)@ == old(state)@,
            Some(ChainArgs::Upgrade(_)) => r == Err::<(), InitError>(InitError::UpgradeOnInit)
                && final(state)@ == old(state)@,
            Some(ChainArgs::Init(a)) => r is Ok && final(state)@ == (StateView {
                ecdsa_key_name: a.ecdsa_key_name@,
                subnet_size: a.subnet_size,
                proxy_token_refresh_interval: installed_interval(a.proxy_token_refresh_interval),
                service_fee: installed_fee(a.service_fee),
                cose: cose_view(a.cose),
                ..old(state)@
            }),
        },
        old(state).wf() ==> final(state).wf(),
{
    match args {
        None => Err(InitError::Missing),
        Some(ChainArgs::Upgrade(_)) => Err(InitError::UpgradeOnInit),
        Some(ChainArgs::Init(a)) => {
            state.ecdsa_key_name = a.ecdsa_key_name;
            state.subnet_size = a.subnet_size;
            state.proxy_token_refresh_interval = if a.proxy_token_refresh_interval
                >= MIN_REFRESH_INTERVAL {
                a.proxy_token_refresh_interval
            } else {
                DEFAULT_REFRESH_INTERVAL
            };
            state.service_fee = if a.service_fee > 0 {
                a.service_fee
            } else {
                DEFAULT_SERVICE_FEE
            };
            state.cose = a.cose;
            Ok(())
        },
    }
}

/// `given`, or `kept` where nothing is given.
pub open spec fn or_kept<T>(given: Option<T>, kept: T) -> T {
    match given {
        Some(v) => v,
        None => kept,
    }
}

/// Takes the arguments of an upgrade into the state: each setting that is given
/// replaces the one that is kept. Without arguments nothing changes. Arguments of
/// an installation, and a refresh interval shorter than ten seconds, are refused,
/// and nothing changes.
pub fn post_upgrade(state: &mut State, args: Option<ChainArgs>) -> (r: Result<(), InitError>)
    ensures
        match args {
            None => r is Ok && final(state)@ == old(state)@,
            Some(ChainArgs::Init(_)) => r == Err::<(), InitError>(InitError::InitOnUpgrade)
                && final(state)@ == old(state)@,
            Some(ChainArgs::Upgrade(a)) => if a.proxy_token_refresh_interval matches Some(given)
                && given < MIN_REFRESH_INTERVAL {
                r == Err::<(), InitError>(InitError::ShortInterval) && final(state)@ == old(state)@
            } else {
                r is Ok && final(state)@ == (StateView {
                    proxy_token_refresh_interval: or_kept(
                        a.proxy_token_refresh_interval,
                        old(state)@.proxy_token_refresh_interval,
                    ),
                    subnet_size: or_kept(a.subnet_size, old(state)@.subnet_size),
                    service_fee: or_kept(a.service_fee, old(state)@.service_fee),
                    cose: match a.cose {
                        Some(c) => Some(c@),
                        None => old(state)@.cose,
                    },
                    ..old(state)@
                })
            },
        },
        old(state).wf() ==> final(state).wf(),
{
    match args {
        None => Ok(()),
        Some(ChainArgs::Init(_)) => Err(InitError::InitOnUpgrade),
        Some(ChainArgs::Upgrade(a)) => {
            match a.proxy_token_refresh_interval {
                Some(given) => {
                    if given < MIN_REFRESH_INTERVAL {
                        return Err(InitError::ShortInterval);
                    }
                    state.proxy_token_refresh_interval = given;
                },
                None => {},
            }
            match a.subnet_size {
                Some(given) => {
                    state.subnet_size = given;
                },
                None => {},
            }
            match a.service_fee {
                Some(given) => {
                    state.service_fee = given;
                },
                None => {},
            }
            match a.cose {
                Some(given) => {
                    state.cose = Some(given);
                },
                None => {},
            }
            Ok(())
        },
    }
}

} // verus!

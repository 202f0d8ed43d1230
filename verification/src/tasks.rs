//! Keeping the agents' bearer tokens fresh.
//!
//! Every agent carries a token whose subject is the agent's name. At each refresh
//! one token is signed for each name and given to every agent of that name. The
//! signing itself is done by the key service; this module says what is to be
//! signed and what becomes of the signatures.

use vstd::prelude::*;
use crate::agent::{agent_views, Agent, AgentView};
use crate::auth::{
    base64url_encoding, claims_bytes, sha3_256_digest, token_bytes,
};
use crate::store::Signer;
use crate::text::str_eq;

verus! {

/// Seconds for which a token outlives the interval between two refreshes.
pub const TOKEN_GRACE_SECONDS: u64 = 120;

/// The expiry of a token signed at `now` where tokens are refreshed every
/// `interval` seconds, both in seconds.
pub open spec fn token_expiry(now: u64, interval: u64) -> u64 {
    if now + interval + TOKEN_GRACE_SECONDS > u64::MAX {
        u64::MAX
    } else {
        (now + interval + TOKEN_GRACE_SECONDS) as u64
    }
}

/// The state of a refresh.
#[derive(Debug)]
pub enum Refresh {
    /// Nothing has happened yet.
    Idle,
    /// The token for the agent at `index` is being signed; every agent before
    /// it has its new token.
    Signing { agents: Vec<Agent>, index: usize, interval: u64, expire_at: u64 },
    /// The refresh has ended.
    Done,
}

/// The mathematical value of a [`Refresh`].
pub enum RefreshView {
    Idle,
    Signing { agents: Seq<AgentView>, index: usize, interval: u64, expire_at: u64 },
    Done,
}

impl View for Refresh {
    type V = RefreshView;

    open spec fn view(&self) -> RefreshView {
        match self {
            Refresh::Idle => RefreshView::Idle,
            Refresh::Signing { agents, index, interval, expire_at } => RefreshView::Signing {
                agents: agent_views(agents@),
                index: *index,
                interval: *interval,
                expire_at: *expire_at,
            },
            Refresh::Done => RefreshView::Done,
        }
    }
}

/// What came of the last action of a refresh.
#[derive(Debug)]
pub enum RefreshEvent {
    /// The refresh begins at `now_seconds` for these agents.
    Begin { agents: Vec<Agent>, interval: u64, now_seconds: u64 },
    /// The key service returned a signature, or failed; it is now `now_seconds`.
    Signed { signature: Result<Vec<u8>, String>, now_seconds: u64 },
}

/// The mathematical value of a [`RefreshEvent`].
pub enum RefreshEventView {
    Begin { agents: Seq<AgentView>, interval: u64, now_seconds: u64 },
    Signed { signature: Result<Seq<u8>, Seq<char>>, now_seconds: u64 },
}

impl View for RefreshEvent {
    type V = RefreshEventView;

    open spec fn view(&self) -> RefreshEventView {
        match self {
            RefreshEvent::Begin { agents, interval, now_seconds } => RefreshEventView::Begin {
                agents: agent_views(agents@),
                interval: *interval,
                now_seconds: *now_seconds,
            },
            RefreshEvent::Signed { signature, now_seconds } => RefreshEventView::Signed {
                signature: match signature {
                    Ok(s) => Ok(s@),
                    Err(why) => Err(why@),
                },
                now_seconds: *now_seconds,
            },
        }
    }
}

/// What to do next in a refresh.
#[derive(Debug)]
pub enum RefreshAction {
    /// Have the key service sign this digest.
    Sign { digest: [u8; 32] },
    /// Take these agents, with their new tokens, into the state.
    Install { agents: Vec<Agent> },
    /// Leave the state as it is: there are no agents.
    Nothing,
    /// Leave the state as it is: signing failed, for the reason given.
    Fail { why: String },
}

/// The mathematical value of a [`RefreshAction`].
pub enum RefreshActionView {
    Sign { digest: Seq<u8> },
    Install { agents: Seq<AgentView> },
    Nothing,
    Fail { why: Seq<char> },
}

impl View for RefreshAction {
    type V = RefreshActionView;

    open spec fn view(&self) -> RefreshActionView {
        match self {
            RefreshAction::Sign { digest } => RefreshActionView::Sign { digest: digest@ },
            RefreshAction::Install { agents } => RefreshActionView::Install {
                agents: agent_views(agents@),
            },
            RefreshAction::Nothing => RefreshActionView::Nothing,
            RefreshAction::Fail { why } => RefreshActionView::Fail { why: why@ },
        }
    }
}

/// The position of the first agent before `index` that has the name of the agent
/// at `index`.
pub open spec fn namesake(agents: Seq<AgentView>, index: int) -> Option<int> {
    if exists|j: int| 0 <= j < index && (#[trigger] agents[j]).name == agents[index].name {
        Some(
            choose|j: int|
                0 <= j < index && (#[trigger] agents[j]).name == agents[index].name && forall|k: int|
                    0 <= k < j ==> (#[trigger] agents[k]).name != agents[index].name,
        )
    } else {
        None
    }
}

/// The refresh from the agent at `index` on, at time `now`: every agent whose name
/// occurred before takes the token of its namesake; at the first agent with a new
/// name its token is signed; after the last agent the agents are installed.
pub open spec fn refresh_from(agents: Seq<AgentView>, index: int, interval: u64, now: u64) -> (
    RefreshView,
    RefreshActionView,
)
    decreases agents.len() - index,
{
    if index < 0 || index >= agents.len() || index >= usize::MAX {
        (RefreshView::Done, RefreshActionView::Install { agents })
    } else {
        match namesake(agents, index) {
            Some(j) => refresh_from(
                agents.update(index, AgentView { proxy_token: agents[j].proxy_token, ..agents[index] }),
                index + 1,
                interval,
                now,
            ),
            None => {
                let expire_at = token_expiry(now, interval);
                (
                    RefreshView::Signing { agents, index: index as usize, interval, expire_at },
                    RefreshActionView::Sign {
                        digest: sha3_256_digest(claims_bytes(expire_at, agents[index].name)),
                    },
                )
            },
        }
    }
}

/// The next state of a refresh and the action to perform.
///
/// Without agents nothing is done. A signature becomes the token of the agent it
/// was signed for, and the refresh goes on with the next agent. Where signing
/// fails the refresh ends and the agents keep the tokens they have.
pub open spec fn refresh_next(state: RefreshView, event: RefreshEventView) -> (
    RefreshView,
    RefreshActionView,
) {
    match (state, event) {
        (RefreshView::Idle, RefreshEventView::Begin { agents, interval, now_seconds }) => {
            if agents.len() == 0 {
                (RefreshView::Done, RefreshActionView::Nothing)
            } else {
                refresh_from(agents, 0, interval, now_seconds)
            }
        },
        (
            RefreshView::Signing { agents, index, interval, expire_at },
            RefreshEventView::Signed { signature, now_seconds },
        ) => {
            if index >= agents.len() {
                (RefreshView::Done, RefreshActionView::Fail { why: "unexpected event"@ })
            } else {
                match signature {
                    Ok(signature) => {
                        let token = base64url_encoding(
                            token_bytes(expire_at, agents[index as int].name, signature),
                        );
                        refresh_from(
                            agents.update(
                                index as int,
                                AgentView { proxy_token: Some(token), ..agents[index as int] },
                            ),
                            index + 1,
                            interval,
                            now_seconds,
                        )
                    },
                    Err(why) => (RefreshView::Done, RefreshActionView::Fail { why }),
                }
            }
        },
        _ => (RefreshView::Done, RefreshActionView::Fail { why: "unexpected event"@ }),
    }
}

/// The position of the first agent before `index` with the name of the agent at `index`.
fn find_namesake(agents: &Vec<Agent>, index: usize) -> (r: Option<usize>)
    requires
        index < agents.len(),
    ensures
        match namesake(agent_views(agents@), index as int) {
            Some(j) => r == Some(j as usize) && 0 <= j < index,
            None => r is None,
        },
{
    let ghost all = agent_views(agents@);
    let mut j: usize = 0;
    while j < index
        invariant
            j <= index < agents.len(),
            all == agent_views(agents@),
            forall|k: int| 0 <= k < j ==> (#[trigger] all[k]).name != all[index as int].name,
        decreases index - j,
    {
        assert(all[j as int] == agents@[j as int]@);
        assert(all[index as int] == agents@[index as int]@);
        if str_eq(agents[j].name.as_str(), agents[index].name.as_str()) {
            proof {
                let found = namesake(all, index as int);
                assert(found is Some);
                let f = found->0;
                if f < j {
                    assert(all[f].name != all[index as int].name);
                } else if j < f {
                    assert(all[j as int].name == all[index as int].name);
                }
            }
            return Some(j);
        }
        j += 1;
    }
    None
}

/// The refresh from the agent at `index` on; see [`refresh_from`].
fn advance(signer: &Signer, agents: Vec<Agent>, index: usize, interval: u64, now: u64) -> (r: (
    Refresh,
    RefreshAction,
))
    ensures
        (r.0@, r.1@) == refresh_from(agent_views(agents@), index as int, interval, now),
{
    let ghost target = refresh_from(agent_views(agents@), index as int, interval, now);
    let mut list = agents;
    let mut at = index;
    while at < list.len() && at < usize::MAX
        invariant
            refresh_from(agent_views(list@), at as int, interval, now) == target,
            target == refresh_from(agent_views(agents@), index as int, interval, now),
        decreases list.len() - at,
    {
        let ghost all = agent_views(list@);
        match find_namesake(&list, at) {
            Some(j) => {
                let token = match &list[j].proxy_token {
                    Some(t) => Some(t.clone()),
                    None => None,
                };
                let name = list[at].name.clone();
                let endpoint = list[at].endpoint.clone();
                let max_cycles = list[at].max_cycles;
                proof {
                    assert(all[j as int] == list@[j as int]@);
                    assert(all[at as int] == list@[at as int]@);
                }
                list.set(at, Agent { name, endpoint, max_cycles, proxy_token: token });
                assert(agent_views(list@) =~= all.update(
                    at as int,
                    AgentView { proxy_token: all[j as int].proxy_token, ..all[at as int] },
                ));
                at += 1;
            },
            None => {
                let expire_at = now.saturating_add(interval).saturating_add(TOKEN_GRACE_SECONDS);
                assert(expire_at == token_expiry(now, interval));
                assert(all[at as int] == list@[at as int]@);
                let digest = signer.proxy_token_digest(expire_at, list[at].name.as_str());
                return (
                    Refresh::Signing { agents: list, index: at, interval, expire_at },
                    RefreshAction::Sign { digest },
                );
            },
        }
    }
    (Refresh::Done, RefreshAction::Install { agents: list })
}

/// One step of a refresh of the agents' tokens; see [`refresh_next`].
pub fn update_proxy_token(signer: &Signer, state: Refresh, event: RefreshEvent) -> (r: (
    Refresh,
    RefreshAction,
))
    ensures
        (r.0@, r.1@) == refresh_next(state@, event@),
{
    match (state, event) {
        (Refresh::Idle, RefreshEvent::Begin { agents, interval, now_seconds }) => {
            if agents.len() == 0 {
                (Refresh::Done, RefreshAction::Nothing)
            } else {
                advance(signer, agents, 0, interval, now_seconds)
            }
        },
        (
            Refresh::Signing { agents, index, interval, expire_at },
            RefreshEvent::Signed { signature, now_seconds },
        ) => {
            if index >= agents.len() {
                return (
                    Refresh::Done,
                    RefreshAction::Fail { why: "unexpected event".to_string() },
                );
            }
            match signature {
                Ok(signature) => {
                    let mut agents = agents;
                    let ghost all = agent_views(agents@);
                    assert(all[index as int] == agents@[index as int]@);
                    let token = signer.sign_proxy_token(
                        expire_at,
                        agents[index].name.as_str(),
                        signature.as_slice(),
                    );
                    let name = agents[index].name.clone();
                    let endpoint = agents[index].endpoint.clone();
                    let max_cycles = agents[index].max_cycles;
                    agents.set(index, Agent { name, endpoint, max_cycles, proxy_token: Some(token) });
                    assert(agent_views(agents@) =~= all.update(
                        index as int,
                        AgentView { proxy_token: Some(token@), ..all[index as int] },
                    ));
                    if index == usize::MAX {
                        return (Refresh::Done, RefreshAction::Install { agents });
                    }
                    advance(signer, agents, index + 1, interval, now_seconds)
                },
                Err(why) => (Refresh::Done, RefreshAction::Fail { why }),
            }
        },
        _ => (Refresh::Done, RefreshAction::Fail { why: "unexpected event".to_string() }),
    }
}

/// One token is signed for each name: where a token is to be signed for an agent,
/// no agent before it has its name.
pub proof fn lemma_one_signature_per_name(agents: Seq<AgentView>, index: int, interval: u64, now: u64)
    requires
        0 <= index,
    ensures
        refresh_from(agents, index, interval, now).0 matches RefreshView::Signing {
            agents: at,
            index: i,
            ..
        } ==> index <= i < at.len() && at.len() == agents.len() && forall|j: int|
            0 <= j < i ==> (#[trigger] at[j]).name != at[i as int].name,
    decreases agents.len() - index,
{
    if !(index >= agents.len() || index >= usize::MAX) {
        match namesake(agents, index) {
            Some(j) => {
                lemma_one_signature_per_name(
                    agents.update(
                        index,
                        AgentView { proxy_token: agents[j].proxy_token, ..agents[index] },
                    ),
                    index + 1,
                    interval,
                    now,
                );
            },
            None => {},
        }
    }
}

} // verus!

//! The state of the replicated service: its agents, who manages it, who may call
//! it, what it charges and what it has received.

use vstd::prelude::*;
use crate::agent::{agent_views, Agent, AgentView};
use crate::auth::{
    base64url_encode, base64url_encoding, claims_bytes, encode_claims, encode_token,
    parsed_token, sha3_256, sha3_256_digest, token_bytes, base64url_decoding,
};
use crate::cycles::Calculator;
use crate::text::{bytes_eq, copy_bytes};

verus! {

/// The identity of a caller, manager or service: its bytes.
pub type Principal = Vec<u8>;

/// The identity that stands for nobody in particular.
pub open spec fn anonymous() -> Seq<u8> {
    seq![4u8]
}

/// The identities of a list.
pub open spec fn ids(list: Seq<Principal>) -> Seq<Seq<u8>> {
    list.map_values(|p: Principal| p@)
}

/// Where the keys of the service are kept, if not with the platform itself.
#[derive(Debug)]
pub struct CoseClient {
    pub id: Principal,
    pub namespace: String,
}

impl Clone for CoseClient {
    fn clone(&self) -> (r: Self)
        ensures
            r.id@ == self.id@,
            r.namespace@ == self.namespace@,
            r.namespace == self.namespace,
    {
        CoseClient { id: copy_bytes(self.id.as_slice()), namespace: self.namespace.clone() }
    }
}

/// What is kept of a caller: the cycles it has spent and when it last called, in
/// milliseconds since the epoch.
#[derive(Debug)]
pub struct CallerEntry {
    pub id: Principal,
    pub cycles: u128,
    pub last_seen_ms: u64,
}

/// The values of a list of callers.
pub open spec fn caller_views(list: Seq<CallerEntry>) -> Seq<(Seq<u8>, u128, u64)> {
    list.map_values(|c: CallerEntry| (c.id@, c.cycles, c.last_seen_ms))
}

/// The state of the service.
#[derive(Debug)]
pub struct State {
    pub ecdsa_key_name: String,
    pub proxy_token_public_key: String,
    /// Seconds between two refreshes of the agents' tokens.
    pub proxy_token_refresh_interval: u64,
    pub agents: Vec<Agent>,
    pub managers: Vec<Principal>,
    /// Callers that were allowed before spending was kept per caller.
    pub allowed_callers: Vec<Principal>,
    pub callers: Vec<CallerEntry>,
    /// The number of nodes that replicate a call; zero where nothing is charged.
    pub subnet_size: u64,
    pub service_fee: u64,
    pub incoming_cycles: u128,
    pub uncollectible_cycles: u128,
    pub cose: Option<CoseClient>,
}

/// Who signs the agents' tokens.
#[derive(Debug)]
pub struct Signer {
    pub key_name: String,
    pub cose: Option<CoseClient>,
}

/// The mathematical value of a [`CoseClient`].
pub struct CoseClientView {
    pub id: Seq<u8>,
    pub namespace: Seq<char>,
}

impl View for CoseClient {
    type V = CoseClientView;

    open spec fn view(&self) -> CoseClientView {
        CoseClientView { id: self.id@, namespace: self.namespace@ }
    }
}

/// The value of an optional key service.
pub open spec fn cose_view(cose: Option<CoseClient>) -> Option<CoseClientView> {
    match cose {
        Some(c) => Some(c@),
        None => None,
    }
}

/// The mathematical value of a [`State`].
pub struct StateView {
    pub ecdsa_key_name: Seq<char>,
    pub proxy_token_public_key: Seq<char>,
    pub proxy_token_refresh_interval: u64,
    pub agents: Seq<AgentView>,
    pub managers: Seq<Seq<u8>>,
    pub allowed_callers: Seq<Seq<u8>>,
    pub callers: Seq<(Seq<u8>, u128, u64)>,
    pub subnet_size: u64,
    pub service_fee: u64,
    pub incoming_cycles: u128,
    pub uncollectible_cycles: u128,
    pub cose: Option<CoseClientView>,
}

impl View for State {
    type V = StateView;

    open spec fn view(&self) -> StateView {
        StateView {
            ecdsa_key_name: self.ecdsa_key_name@,
            proxy_token_public_key: self.proxy_token_public_key@,
            proxy_token_refresh_interval: self.proxy_token_refresh_interval,
            agents: agent_views(self.agents@),
            managers: ids(self.managers@),
            allowed_callers: ids(self.allowed_callers@),
            callers: caller_views(self.callers@),
            subnet_size: self.subnet_size,
            service_fee: self.service_fee,
            incoming_cycles: self.incoming_cycles,
            uncollectible_cycles: self.uncollectible_cycles,
            cose: cose_view(self.cose),
        }
    }
}

/// Whether a list holds this identity.
pub open spec fn has_id(list: Seq<Seq<u8>>, id: Seq<u8>) -> bool {
    exists|i: int| 0 <= i < list.len() && #[trigger] list[i] == id
}

/// Whether one of the callers has this identity.
pub open spec fn has_caller(list: Seq<(Seq<u8>, u128, u64)>, id: Seq<u8>) -> bool {
    exists|i: int| 0 <= i < list.len() && (#[trigger] list[i]).0 == id
}

/// The list with the identity added at its end, unless it holds it.
pub open spec fn with_id(list: Seq<Seq<u8>>, id: Seq<u8>) -> Seq<Seq<u8>> {
    if has_id(list, id) {
        list
    } else {
        list.push(id)
    }
}

/// The list with each of the identities added in turn.
pub open spec fn with_ids(list: Seq<Seq<u8>>, more: Seq<Seq<u8>>) -> Seq<Seq<u8>>
    decreases more.len(),
{
    if more.len() == 0 {
        list
    } else {
        with_id(with_ids(list, more.drop_last()), more.last())
    }
}

/// The callers with a fresh entry for the identity at the end, unless it has one.
pub open spec fn with_caller(list: Seq<(Seq<u8>, u128, u64)>, id: Seq<u8>) -> Seq<
    (Seq<u8>, u128, u64),
> {
    if has_caller(list, id) {
        list
    } else {
        list.push((id, 0u128, 0u64))
    }
}

/// The callers with a fresh entry for each of the identities that has none.
pub open spec fn with_callers(list: Seq<(Seq<u8>, u128, u64)>, more: Seq<Seq<u8>>) -> Seq<
    (Seq<u8>, u128, u64),
>
    decreases more.len(),
{
    if more.len() == 0 {
        list
    } else {
        with_caller(with_callers(list, more.drop_last()), more.last())
    }
}

/// Whether an identity is none of those to remove.
pub open spec fn stays(removed: Seq<Seq<u8>>) -> spec_fn(Seq<u8>) -> bool {
    |id: Seq<u8>| !has_id(removed, id)
}

/// Whether a caller is none of those to remove.
pub open spec fn caller_stays(removed: Seq<Seq<u8>>) -> spec_fn((Seq<u8>, u128, u64)) -> bool {
    |c: (Seq<u8>, u128, u64)| !has_id(removed, c.0)
}

/// No identity occurs twice in the list.
pub open spec fn distinct_ids(list: Seq<Seq<u8>>) -> bool {
    forall|i: int, j: int| 0 <= i < j < list.len() ==> #[trigger] list[i] != #[trigger] list[j]
}

/// No identity has two entries among the callers.
pub open spec fn distinct_callers(list: Seq<(Seq<u8>, u128, u64)>) -> bool {
    forall|i: int, j: int|
        0 <= i < j < list.len() ==> (#[trigger] list[i]).0 != (#[trigger] list[j]).0
}

/// What holds of every state that the service keeps: the managers are a set, and
/// so are the callers that were allowed before spending was kept, and no caller
/// has two entries.
pub open spec fn valid(state: StateView) -> bool {
    distinct_ids(state.managers) && distinct_ids(state.allowed_callers) && distinct_callers(
        state.callers,
    )
}

impl State {
    /// The state is valid; see [`valid`]. The empty state is, and every operation
    /// of this module keeps a valid state valid.
    pub open spec fn wf(&self) -> bool {
        valid(self@)
    }
}

/// Adding identities that a list does not hold keeps it free of repetitions.
pub proof fn lemma_with_ids_distinct(list: Seq<Seq<u8>>, more: Seq<Seq<u8>>)
    requires
        distinct_ids(list),
    ensures
        distinct_ids(with_ids(list, more)),
    decreases more.len(),
{
    if more.len() > 0 {
        lemma_with_ids_distinct(list, more.drop_last());
    }
}

/// Adding entries for identities that have none keeps the callers free of
/// repetitions.
pub proof fn lemma_with_callers_distinct(list: Seq<(Seq<u8>, u128, u64)>, more: Seq<Seq<u8>>)
    requires
        distinct_callers(list),
    ensures
        distinct_callers(with_callers(list, more)),
    decreases more.len(),
{
    if more.len() > 0 {
        lemma_with_callers_distinct(list, more.drop_last());
    }
}

/// Each item that a filter keeps stands in what it keeps at a position that grows
/// with its position in the list: the positions of the kept items.
proof fn lemma_filter_positions<A>(list: Seq<A>, keep: spec_fn(A) -> bool) -> (at: Seq<int>)
    ensures
        at.len() == list.filter(keep).len(),
        forall|k: int| 0 <= k < at.len() ==> 0 <= #[trigger] at[k] < list.len() && list[at[k]]
            == list.filter(keep)[k],
        forall|k: int, l: int| 0 <= k < l < at.len() ==> at[k] < at[l],
    decreases list.len(),
{
    reveal(Seq::filter);
    if list.len() == 0 {
        Seq::empty()
    } else {
        let before = lemma_filter_positions(list.drop_last(), keep);
        if keep(list.last()) {
            before.push(list.len() - 1)
        } else {
            before
        }
    }
}

/// Removing identities keeps a list free of repetitions.
pub proof fn lemma_filter_distinct_ids(list: Seq<Seq<u8>>, keep: spec_fn(Seq<u8>) -> bool)
    requires
        distinct_ids(list),
    ensures
        distinct_ids(list.filter(keep)),
{
    let at = lemma_filter_positions(list, keep);
    let kept = list.filter(keep);
    assert forall|i: int, j: int| 0 <= i < j < kept.len() implies #[trigger] kept[i]
        != #[trigger] kept[j] by {
        assert(list[at[i]] != list[at[j]]);
    }
}

/// Removing callers keeps the callers free of repetitions.
pub proof fn lemma_filter_distinct_callers(
    list: Seq<(Seq<u8>, u128, u64)>,
    keep: spec_fn((Seq<u8>, u128, u64)) -> bool,
)
    requires
        distinct_callers(list),
    ensures
        distinct_callers(list.filter(keep)),
{
    let at = lemma_filter_positions(list, keep);
    let kept = list.filter(keep);
    assert forall|i: int, j: int| 0 <= i < j < kept.len() implies (#[trigger] kept[i]).0 != (
    #[trigger] kept[j]).0 by {
        assert(list[at[i]].0 != list[at[j]].0);
    }
}

/// Why a list of identities is refused.
#[derive(Clone, Copy, Debug, PartialEq, Eq, Structural)]
pub enum AdminError {
    /// The list is empty.
    Empty,
    /// The list holds the anonymous identity.
    Anonymous,
    /// The anonymous identity cannot be a caller.
    AnonymousCaller,
    /// The list of agents is empty.
    NoAgents,
}

impl AdminError {
    /// The text that describes the error.
    pub fn message(&self) -> (s: String)
        ensures
            s@ == match *self {
                AdminError::Empty => "principals cannot be empty"@,
                AdminError::Anonymous => "anonymous user is not allowed"@,
                AdminError::AnonymousCaller => "anonymous caller cannot be added"@,
                AdminError::NoAgents => "agents cannot be empty"@,
            },
    {
        match self {
            AdminError::Empty => "principals cannot be empty".to_string(),
            AdminError::Anonymous => "anonymous user is not allowed".to_string(),
            AdminError::AnonymousCaller => "anonymous caller cannot be added".to_string(),
            AdminError::NoAgents => "agents cannot be empty".to_string(),
        }
    }
}

/// What is wrong with a list of identities, if anything: it must not be empty and
/// must not hold the anonymous identity.
pub open spec fn principals_fault(list: Seq<Seq<u8>>) -> Option<AdminError> {
    if list.len() == 0 {
        Some(AdminError::Empty)
    } else if has_id(list, anonymous()) {
        Some(AdminError::Anonymous)
    } else {
        None
    }
}

/// Whether this is the anonymous identity.
pub fn is_anonymous(id: &[u8]) -> (r: bool)
    ensures
        r == (id@ == anonymous()),
{
    if id.len() == 1 && id[0] == 4 {
        assert(id@ =~= anonymous());
        true
    } else {
        false
    }
}

/// Whether the list holds the identity.
pub fn holds_id(list: &Vec<Principal>, id: &[u8]) -> (r: bool)
    ensures
        r == has_id(ids(list@), id@),
{
    let mut i: usize = 0;
    while i < list.len()
        invariant
            i <= list.len(),
            forall|j: int| 0 <= j < i ==> #[trigger] ids(list@)[j] != id@,
        decreases list.len() - i,
    {
        if bytes_eq(list[i].as_slice(), id) {
            assert(ids(list@)[i as int] == id@);
            return true;
        }
        i += 1;
    }
    false
}

/// Checks a list of identities; see [`principals_fault`].
pub fn validate_principals(list: &Vec<Principal>) -> (r: Result<(), AdminError>)
    ensures
        match principals_fault(ids(list@)) {
            Some(e) => r == Err::<(), AdminError>(e),
            None => r is Ok,
        },
{
    if list.len() == 0 {
        return Err(AdminError::Empty);
    }
    let mut anonymous: Vec<u8> = Vec::new();
    anonymous.push(4u8);
    assert(anonymous@ =~= self::anonymous());
    if holds_id(list, anonymous.as_slice()) {
        return Err(AdminError::Anonymous);
    }
    Ok(())
}

/// A copy of a list of agents.
pub fn clone_agents(agents: &Vec<Agent>) -> (r: Vec<Agent>)
    ensures
        agent_views(r@) == agent_views(agents@),
{
    let mut out: Vec<Agent> = Vec::new();
    let mut i: usize = 0;
    while i < agents.len()
        invariant
            i <= agents.len(),
            agent_views(out@) == agent_views(agents@.take(i as int)),
        decreases agents.len() - i,
    {
        let ghost before = agent_views(out@);
        let a = agents[i].clone();
        out.push(a);
        assert(agent_views(out@) =~= before.push(agents@[i as int]@));
        assert(agent_views(agents@.take(i + 1)) =~= agent_views(agents@.take(i as int)).push(
            agents@[i as int]@,
        ));
        i += 1;
    }
    assert(agents@.take(agents.len() as int) =~= agents@);
    out
}

/// The agents of the service.
pub fn get_agents(state: &State) -> (r: Vec<Agent>)
    ensures
        agent_views(r@) == agent_views(state.agents@),
{
    clone_agents(&state.agents)
}

/// The calculator for what the service charges.
pub fn cycles_calculator(state: &State) -> (r: Calculator)
    ensures
        r == (Calculator { subnet_size: state.subnet_size, service_fee: state.service_fee }),
{
    Calculator { subnet_size: state.subnet_size, service_fee: state.service_fee }
}

/// Whether the identity manages the service.
pub fn is_manager(state: &State, caller: &[u8]) -> (r: bool)
    ensures
        r == has_id(ids(state.managers@), caller@),
{
    holds_id(&state.managers, caller)
}

/// The position of the caller with this identity.
fn find_caller(callers: &Vec<CallerEntry>, id: &[u8]) -> (r: Option<usize>)
    ensures
        match r {
            Some(i) => i < callers.len() && callers[i as int].id@ == id@ && forall|j: int|
                0 <= j < i ==> (#[trigger] caller_views(callers@)[j]).0 != id@,
            None => !has_caller(caller_views(callers@), id@),
        },
{
    let mut i: usize = 0;
    while i < callers.len()
        invariant
            i <= callers.len(),
            forall|j: int| 0 <= j < i ==> (#[trigger] caller_views(callers@)[j]).0 != id@,
        decreases callers.len() - i,
    {
        if bytes_eq(callers[i].id.as_slice(), id) {
            return Some(i);
        }
        i += 1;
    }
    None
}

/// Whether the identity may call the service.
pub fn is_allowed(state: &State, caller: &[u8]) -> (r: bool)
    ensures
        r == has_caller(caller_views(state.callers@), caller@),
{
    match find_caller(&state.callers, caller) {
        Some(i) => {
            assert(caller_views(state.callers@)[i as int].0 == caller@);
            true
        },
        None => false,
    }
}

/// `a + b`, or the largest 128-bit integer where the sum exceeds it.
pub open spec fn saturating_sum(a: u128, b: u128) -> u128 {
    if a + b > u128::MAX {
        u128::MAX
    } else {
        (a + b) as u128
    }
}

/// The callers after one of them has spent `cycles` at time `now_ms`: the first
/// entry with the identity takes both; without such an entry nothing changes.
pub open spec fn caller_charged(
    list: Seq<(Seq<u8>, u128, u64)>,
    id: Seq<u8>,
    cycles: u128,
    now_ms: u64,
) -> Seq<(Seq<u8>, u128, u64)>
    decreases list.len(),
{
    if list.len() == 0 {
        list
    } else if list.first().0 == id {
        seq![(id, saturating_sum(list.first().1, cycles), now_ms)] + list.drop_first()
    } else {
        seq![list.first()] + caller_charged(list.drop_first(), id, cycles, now_ms)
    }
}

/// Charging a caller changes the first entry with its identity and nothing else.
proof fn lemma_caller_charged(
    list: Seq<(Seq<u8>, u128, u64)>,
    id: Seq<u8>,
    cycles: u128,
    now_ms: u64,
    at: int,
)
    requires
        0 <= at <= list.len(),
        forall|j: int| 0 <= j < at ==> (#[trigger] list[j]).0 != id,
        at < list.len() ==> list[at].0 == id,
    ensures
        caller_charged(list, id, cycles, now_ms) == if at < list.len() {
            list.update(at, (id, saturating_sum(list[at].1, cycles), now_ms))
        } else {
            list
        },
    decreases list.len(),
{
    if list.len() > 0 {
        if at == 0 {
            assert(seq![(id, saturating_sum(list.first().1, cycles), now_ms)] + list.drop_first()
                =~= list.update(0, (id, saturating_sum(list[0].1, cycles), now_ms)));
        } else {
            let rest = list.drop_first();
            assert(list[0].0 != id);
            assert forall|j: int| 0 <= j < at - 1 implies (#[trigger] rest[j]).0 != id by {
                assert(rest[j] == list[j + 1]);
            }
            lemma_caller_charged(rest, id, cycles, now_ms, at - 1);
            if at < list.len() {
                assert(seq![list.first()] + rest.update(
                    at - 1,
                    (id, saturating_sum(rest[at - 1].1, cycles), now_ms),
                ) =~= list.update(at, (id, saturating_sum(list[at].1, cycles), now_ms)));
            } else {
                assert(seq![list.first()] + rest =~= list);
            }
        }
    }
}

/// Keeps what a caller has spent: `cycles` more, and `now_ms` as the time of its
/// last call. A caller that is not known is not kept.
pub fn update_caller_state(state: &mut State, caller: &[u8], cycles: u128, now_ms: u64)
    ensures
        final(state)@ == (StateView {
            callers: caller_charged(old(state)@.callers, caller@, cycles, now_ms),
            ..old(state)@
        }),
        old(state).wf() ==> final(state).wf(),
{
    let ghost before = caller_views(state.callers@);
    match find_caller(&state.callers, caller) {
        Some(i) => {
            let spent = state.callers[i].cycles.saturating_add(cycles);
            proof {
                assert(before[i as int] == (
                    state.callers@[i as int].id@,
                    state.callers@[i as int].cycles,
                    state.callers@[i as int].last_seen_ms,
                ));
                lemma_caller_charged(before, caller@, cycles, now_ms, i as int);
            }
            let id = copy_bytes(caller);
            state.callers.set(i, CallerEntry { id, cycles: spent, last_seen_ms: now_ms });
            assert(caller_views(state.callers@) =~= before.update(
                i as int,
                (caller@, spent, now_ms),
            ));
            assert(distinct_callers(before) ==> distinct_callers(caller_views(state.callers@))) by {
                let after = caller_views(state.callers@);
                assert forall|j: int| 0 <= j < after.len() implies (#[trigger] after[j]).0
                    == before[j].0 by {}
            }
        },
        None => {
            proof {
                assert forall|j: int| 0 <= j < before.len() implies (#[trigger] before[j]).0
                    != caller@ by {}
                lemma_caller_charged(before, caller@, cycles, now_ms, before.len() as int);
            }
        },
    }
}

/// Whether a request may go on after `cycles` were asked of its caller and
/// `received` were received: it may not where less was received and that cannot
/// be ignored.
pub open spec fn covered(cycles: u128, received: u128, ignore_insufficient: bool) -> bool {
    cycles <= received || ignore_insufficient
}

/// Keeps what was received of the cycles that were asked of a caller: what was
/// received is added to the incoming cycles, what is missing to the
/// uncollectible ones. Returns whether the request may go on; see [`covered`].
pub fn receive_cycles(state: &mut State, cycles: u128, received: u128, ignore_insufficient: bool) -> (go_on:
    bool)
    ensures
        go_on == covered(cycles, received, ignore_insufficient),
        final(state)@ == (StateView {
            incoming_cycles: saturating_sum(old(state)@.incoming_cycles, received),
            uncollectible_cycles: if cycles > received {
                saturating_sum(old(state)@.uncollectible_cycles, (cycles - received) as u128)
            } else {
                old(state)@.uncollectible_cycles
            },
            ..old(state)@
        }),
        old(state).wf() ==> final(state).wf(),
{
    state.incoming_cycles = state.incoming_cycles.saturating_add(received);
    if cycles > received {
        state.uncollectible_cycles = state.uncollectible_cycles.saturating_add(cycles - received);
        return ignore_insufficient;
    }
    true
}

/// A copy of a list of identities.
pub fn clone_ids(list: &Vec<Principal>) -> (r: Vec<Principal>)
    ensures
        ids(r@) == ids(list@),
{
    let mut out: Vec<Principal> = Vec::new();
    let mut i: usize = 0;
    while i < list.len()
        invariant
            i <= list.len(),
            ids(out@) == ids(list@.take(i as int)),
        decreases list.len() - i,
    {
        let ghost before = ids(out@);
        let id = copy_bytes(list[i].as_slice());
        out.push(id);
        assert(ids(out@) =~= before.push(list@[i as int]@));
        assert(ids(list@.take(i + 1)) =~= ids(list@.take(i as int)).push(list@[i as int]@));
        i += 1;
    }
    assert(list@.take(list.len() as int) =~= list@);
    out
}

/// A copy of a list of callers.
fn clone_callers(list: &Vec<CallerEntry>) -> (r: Vec<CallerEntry>)
    ensures
        caller_views(r@) == caller_views(list@),
{
    let mut out: Vec<CallerEntry> = Vec::new();
    let mut i: usize = 0;
    while i < list.len()
        invariant
            i <= list.len(),
            caller_views(out@) == caller_views(list@.take(i as int)),
        decreases list.len() - i,
    {
        let ghost before = caller_views(out@);
        let c = &list[i];
        let id = copy_bytes(c.id.as_slice());
        out.push(CallerEntry { id, cycles: c.cycles, last_seen_ms: c.last_seen_ms });
        assert(caller_views(out@) =~= before.push((c.id@, c.cycles, c.last_seen_ms)));
        assert(caller_views(list@.take(i + 1)) =~= caller_views(list@.take(i as int)).push(
            (c.id@, c.cycles, c.last_seen_ms),
        ));
        i += 1;
    }
    assert(list@.take(list.len() as int) =~= list@);
    out
}

impl Clone for State {
    fn clone(&self) -> (r: Self)
        ensures
            r@ == self@,
    {
        State {
            ecdsa_key_name: self.ecdsa_key_name.clone(),
            proxy_token_public_key: self.proxy_token_public_key.clone(),
            proxy_token_refresh_interval: self.proxy_token_refresh_interval,
            agents: clone_agents(&self.agents),
            managers: clone_ids(&self.managers),
            allowed_callers: clone_ids(&self.allowed_callers),
            callers: clone_callers(&self.callers),
            subnet_size: self.subnet_size,
            service_fee: self.service_fee,
            incoming_cycles: self.incoming_cycles,
            uncollectible_cycles: self.uncollectible_cycles,
            cose: match &self.cose {
                Some(c) => Some(c.clone()),
                None => None,
            },
        }
    }
}

impl Default for State {
    fn default() -> (r: Self)
        ensures
            r@ == (StateView {
                ecdsa_key_name: Seq::empty(),
                proxy_token_public_key: Seq::empty(),
                proxy_token_refresh_interval: 0,
                agents: Seq::empty(),
                managers: Seq::empty(),
                allowed_callers: Seq::empty(),
                callers: Seq::empty(),
                subnet_size: 0,
                service_fee: 0,
                incoming_cycles: 0,
                uncollectible_cycles: 0,
                cose: None,
            }),
            r.wf(),
    {
        let r = State {
            ecdsa_key_name: String::new(),
            proxy_token_public_key: String::new(),
            proxy_token_refresh_interval: 0,
            agents: Vec::new(),
            managers: Vec::new(),
            allowed_callers: Vec::new(),
            callers: Vec::new(),
            subnet_size: 0,
            service_fee: 0,
            incoming_cycles: 0,
            uncollectible_cycles: 0,
            cose: None,
        };
        assert(r@.agents =~= Seq::<AgentView>::empty());
        assert(r@.managers =~= Seq::<Seq<u8>>::empty());
        assert(r@.allowed_callers =~= Seq::<Seq<u8>>::empty());
        assert(r@.callers =~= Seq::<(Seq<u8>, u128, u64)>::empty());
        r
    }
}

/// Adds a fresh entry for each identity that has none.
fn add_callers(callers: &mut Vec<CallerEntry>, more: &Vec<Principal>)
    ensures
        caller_views(final(callers)@) == with_callers(caller_views(old(callers)@), ids(more@)),
{
    let ghost start = caller_views(callers@);
    let ghost all = ids(more@);
    let mut i: usize = 0;
    assert(all.take(0) =~= Seq::<Seq<u8>>::empty());
    while i < more.len()
        invariant
            i <= more.len(),
            all == ids(more@),
            caller_views(callers@) == with_callers(start, all.take(i as int)),
        decreases more.len() - i,
    {
        proof {
            assert(all.take(i + 1).drop_last() =~= all.take(i as int));
            assert(all.take(i + 1).last() == more@[i as int]@);
        }
        match find_caller(callers, more[i].as_slice()) {
            None => {
                let ghost before = caller_views(callers@);
                let id = copy_bytes(more[i].as_slice());
                callers.push(CallerEntry { id, cycles: 0, last_seen_ms: 0 });
                assert(caller_views(callers@) =~= before.push((more@[i as int]@, 0u128, 0u64)));
            },
            Some(at) => {
                assert(caller_views(callers@)[at as int].0 == more@[i as int]@);
            },
        }
        i += 1;
    }
    assert(all.take(more.len() as int) =~= all);
}

/// Adds each identity that the list does not hold.
fn add_ids(list: &mut Vec<Principal>, more: &Vec<Principal>)
    ensures
        ids(final(list)@) == with_ids(ids(old(list)@), ids(more@)),
{
    let ghost start = ids(list@);
    let ghost all = ids(more@);
    let mut i: usize = 0;
    assert(all.take(0) =~= Seq::<Seq<u8>>::empty());
    while i < more.len()
        invariant
            i <= more.len(),
            all == ids(more@),
            ids(list@) == with_ids(start, all.take(i as int)),
        decreases more.len() - i,
    {
        proof {
            assert(all.take(i + 1).drop_last() =~= all.take(i as int));
            assert(all.take(i + 1).last() == more@[i as int]@);
        }
        if !holds_id(list, more[i].as_slice()) {
            let ghost before = ids(list@);
            let id = copy_bytes(more[i].as_slice());
            list.push(id);
            assert(ids(list@) =~= before.push(more@[i as int]@));
        }
        i += 1;
    }
    assert(all.take(more.len() as int) =~= all);
}

/// The state that is taken up after an upgrade: every caller that was allowed
/// before spending was kept per caller gets an entry, and the old list is emptied.
pub fn load(stored: State) -> (r: State)
    ensures
        r@ == (StateView {
            callers: with_callers(stored@.callers, stored@.allowed_callers),
            allowed_callers: Seq::empty(),
            ..stored@
        }),
        stored.wf() ==> r.wf(),
{
    proof {
        if stored.wf() {
            lemma_with_callers_distinct(stored@.callers, stored@.allowed_callers);
        }
    }
    let mut state = stored;
    let ghost before = state@;
    if state.allowed_callers.len() > 0 {
        add_callers(&mut state.callers, &state.allowed_callers);
        state.allowed_callers = Vec::new();
    }
    assert(state@.allowed_callers =~= Seq::<Seq<u8>>::empty());
    state
}

/// The state as it is put away before an upgrade: a copy.
pub fn save(state: &State) -> (r: State)
    ensures
        r@ == state@,
{
    state.clone()
}

/// Adds managers. The list must not be empty nor hold the anonymous identity;
/// where it is refused nothing changes.
pub fn admin_add_managers(state: &mut State, args: &Vec<Principal>) -> (r: Result<(), AdminError>)
    ensures
        match principals_fault(ids(args@)) {
            Some(e) => r == Err::<(), AdminError>(e) && final(state)@ == old(state)@,
            None => r is Ok && final(state)@ == (StateView {
                managers: with_ids(old(state)@.managers, ids(args@)),
                ..old(state)@
            }),
        },
        old(state).wf() ==> final(state).wf(),
{
    proof {
        if state.wf() {
            lemma_with_ids_distinct(state@.managers, ids(args@));
        }
    }
    match validate_principals(args) {
        Err(e) => Err(e),
        Ok(()) => {
            add_ids(&mut state.managers, args);
            Ok(())
        },
    }
}

/// The identities of the list that are none of those to remove, in their order.
fn without_ids(list: &Vec<Principal>, removed: &Vec<Principal>) -> (out: Vec<Principal>)
    ensures
        ids(out@) == ids(list@).filter(stays(ids(removed@))),
{
    let ghost all = ids(list@);
    let ghost keep = stays(ids(removed@));
    let mut out: Vec<Principal> = Vec::new();
    let mut i: usize = 0;
    assert(ids(out@) =~= all.take(0).filter(keep)) by {
        assert(all.take(0) =~= Seq::<Seq<u8>>::empty());
        all.take(0).lemma_filter_len(keep);
    }
    while i < list.len()
        invariant
            i <= list.len(),
            all == ids(list@),
            keep == stays(ids(removed@)),
            ids(out@) == all.take(i as int).filter(keep),
        decreases list.len() - i,
    {
        proof {
            assert(all[i as int] == list@[i as int]@);
            assert(all.take(i + 1) =~= all.take(i as int).push(all[i as int]));
            all.take(i as int).lemma_filter_push(all[i as int], keep);
        }
        if !holds_id(removed, list[i].as_slice()) {
            let ghost before = ids(out@);
            let id = copy_bytes(list[i].as_slice());
            out.push(id);
            assert(ids(out@) =~= before.push(all[i as int]));
        }
        i += 1;
    }
    assert(all.take(list.len() as int) =~= all);
    out
}

/// Removes managers. The list must not be empty nor hold the anonymous identity;
/// where it is refused nothing changes.
pub fn admin_remove_managers(state: &mut State, args: &Vec<Principal>) -> (r: Result<
    (),
    AdminError,
>)
    ensures
        match principals_fault(ids(args@)) {
            Some(e) => r == Err::<(), AdminError>(e) && final(state)@ == old(state)@,
            None => r is Ok && final(state)@ == (StateView {
                managers: old(state)@.managers.filter(stays(ids(args@))),
                ..old(state)@
            }),
        },
        old(state).wf() ==> final(state).wf(),
{
    proof {
        if state.wf() {
            lemma_filter_distinct_ids(state@.managers, stays(ids(args@)));
        }
    }
    match validate_principals(args) {
        Err(e) => Err(e),
        Ok(()) => {
            state.managers = without_ids(&state.managers, args);
            Ok(())
        },
    }
}

/// Replaces the managers by the identities of the list, each once, in the order
/// in which they first occur. The list must not be empty nor hold the anonymous
/// identity; where it is refused nothing changes.
pub fn admin_set_managers(state: &mut State, args: Vec<Principal>) -> (r: Result<(), AdminError>)
    ensures
        match principals_fault(ids(args@)) {
            Some(e) => r == Err::<(), AdminError>(e) && final(state)@ == old(state)@,
            None => r is Ok && final(state)@ == (StateView {
                managers: with_ids(Seq::empty(), ids(args@)),
                ..old(state)@
            }),
        },
        old(state).wf() ==> final(state).wf(),
{
    proof {
        lemma_with_ids_distinct(Seq::empty(), ids(args@));
    }
    match validate_principals(&args) {
        Err(e) => Err(e),
        Ok(()) => {
            let mut managers: Vec<Principal> = Vec::new();
            assert(ids(managers@) =~= Seq::<Seq<u8>>::empty());
            add_ids(&mut managers, &args);
            state.managers = managers;
            Ok(())
        },
    }
}

/// Allows a caller, unless it is anonymous. Returns whether the caller is new.
pub fn admin_add_caller(state: &mut State, id: Principal) -> (r: Result<bool, AdminError>)
    ensures
        id@ == anonymous() ==> r == Err::<bool, AdminError>(AdminError::AnonymousCaller),
        id@ == anonymous() ==> final(state)@ == old(state)@,
        id@ != anonymous() ==> r == Ok::<bool, AdminError>(!has_caller(old(state)@.callers, id@)),
        id@ != anonymous() ==> final(state)@ == (StateView {
            callers: with_caller(old(state)@.callers, id@),
            ..old(state)@
        }),
        old(state).wf() ==> final(state).wf(),
{
    if is_anonymous(id.as_slice()) {
        return Err(AdminError::AnonymousCaller);
    }
    match find_caller(&state.callers, id.as_slice()) {
        Some(at) => {
            assert(caller_views(state.callers@)[at as int].0 == id@);
            Ok(false)
        },
        None => {
            let ghost before = caller_views(state.callers@);
            state.callers.push(CallerEntry { id, cycles: 0, last_seen_ms: 0 });
            assert(caller_views(state.callers@) =~= before.push((id@, 0u128, 0u64)));
            Ok(true)
        },
    }
}

/// Allows callers. The list must not be empty nor hold the anonymous identity;
/// where it is refused nothing changes.
pub fn admin_add_callers(state: &mut State, args: &Vec<Principal>) -> (r: Result<(), AdminError>)
    ensures
        match principals_fault(ids(args@)) {
            Some(e) => r == Err::<(), AdminError>(e) && final(state)@ == old(state)@,
            None => r is Ok && final(state)@ == (StateView {
                callers: with_callers(old(state)@.callers, ids(args@)),
                ..old(state)@
            }),
        },
        old(state).wf() ==> final(state).wf(),
{
    proof {
        if state.wf() {
            lemma_with_callers_distinct(state@.callers, ids(args@));
        }
    }
    match validate_principals(args) {
        Err(e) => Err(e),
        Ok(()) => {
            add_callers(&mut state.callers, args);
            Ok(())
        },
    }
}

/// The callers that are none of those to remove, in their order.
fn without_callers(list: &Vec<CallerEntry>, removed: &Vec<Principal>) -> (out: Vec<CallerEntry>)
    ensures
        caller_views(out@) == caller_views(list@).filter(caller_stays(ids(removed@))),
{
    let ghost all = caller_views(list@);
    let ghost keep = caller_stays(ids(removed@));
    let mut out: Vec<CallerEntry> = Vec::new();
    let mut i: usize = 0;
    assert(caller_views(out@) =~= all.take(0).filter(keep)) by {
        assert(all.take(0) =~= Seq::<(Seq<u8>, u128, u64)>::empty());
        all.take(0).lemma_filter_len(keep);
    }
    while i < list.len()
        invariant
            i <= list.len(),
            all == caller_views(list@),
            keep == caller_stays(ids(removed@)),
            caller_views(out@) == all.take(i as int).filter(keep),
        decreases list.len() - i,
    {
        let c = &list[i];
        proof {
            assert(all[i as int] == (c.id@, c.cycles, c.last_seen_ms));
            assert(all.take(i + 1) =~= all.take(i as int).push(all[i as int]));
            all.take(i as int).lemma_filter_push(all[i as int], keep);
        }
        if !holds_id(removed, c.id.as_slice()) {
            let ghost before = caller_views(out@);
            let id = copy_bytes(c.id.as_slice());
            out.push(CallerEntry { id, cycles: c.cycles, last_seen_ms: c.last_seen_ms });
            assert(caller_views(out@) =~= before.push(all[i as int]));
        }
        i += 1;
    }
    assert(all.take(list.len() as int) =~= all);
    out
}

/// Disallows callers. The list must not be empty nor hold the anonymous
/// identity; where it is refused nothing changes.
pub fn admin_remove_callers(state: &mut State, args: &Vec<Principal>) -> (r: Result<
    (),
    AdminError,
>)
    ensures
        match principals_fault(ids(args@)) {
            Some(e) => r == Err::<(), AdminError>(e) && final(state)@ == old(state)@,
            None => r is Ok && final(state)@ == (StateView {
                callers: old(state)@.callers.filter(caller_stays(ids(args@))),
                ..old(state)@
            }),
        },
        old(state).wf() ==> final(state).wf(),
{
    proof {
        if state.wf() {
            lemma_filter_distinct_callers(state@.callers, caller_stays(ids(args@)));
        }
    }
    match validate_principals(args) {
        Err(e) => Err(e),
        Ok(()) => {
            state.callers = without_callers(&state.callers, args);
            Ok(())
        },
    }
}

/// Checks a list of agents: it must not be empty.
pub fn validate_admin_set_agents(agents: &Vec<Agent>) -> (r: Result<(), AdminError>)
    ensures
        agents.len() == 0 ==> r == Err::<(), AdminError>(AdminError::NoAgents),
        agents.len() > 0 ==> r is Ok,
{
    if agents.len() == 0 {
        Err(AdminError::NoAgents)
    } else {
        Ok(())
    }
}

/// What the service tells about itself.
#[derive(Debug)]
pub struct StateInfo {
    pub ecdsa_key_name: String,
    pub proxy_token_public_key: String,
    pub proxy_token_refresh_interval: u64,
    /// The agents, without their tokens.
    pub agents: Vec<Agent>,
    pub managers: Vec<Principal>,
    /// The number of callers.
    pub callers: u64,
    pub subnet_size: u64,
    pub service_fee: u64,
    pub incoming_cycles: u128,
    pub uncollectible_cycles: u128,
    pub cose: Option<CoseClient>,
}

/// An agent without its token.
pub open spec fn without_token(agent: AgentView) -> AgentView {
    AgentView { proxy_token: None, ..agent }
}

/// What the service tells about itself: its settings and counters, its agents
/// without their tokens, and the number of its callers.
pub fn state_info(state: &State) -> (info: StateInfo)
    ensures
        info.ecdsa_key_name@ == state@.ecdsa_key_name,
        info.proxy_token_public_key@ == state@.proxy_token_public_key,
        info.proxy_token_refresh_interval == state@.proxy_token_refresh_interval,
        agent_views(info.agents@) == state@.agents.map_values(|a: AgentView| without_token(a)),
        ids(info.managers@) == state@.managers,
        info.callers == state@.callers.len(),
        info.subnet_size == state@.subnet_size,
        info.service_fee == state@.service_fee,
        info.incoming_cycles == state@.incoming_cycles,
        info.uncollectible_cycles == state@.uncollectible_cycles,
        cose_view(info.cose) == state@.cose,
{
    let ghost target = state@.agents.map_values(|a: AgentView| without_token(a));
    let mut agents: Vec<Agent> = Vec::new();
    let mut i: usize = 0;
    while i < state.agents.len()
        invariant
            i <= state.agents.len(),
            target == state@.agents.map_values(|a: AgentView| without_token(a)),
            agent_views(agents@) == target.take(i as int),
        decreases state.agents.len() - i,
    {
        let ghost before = agent_views(agents@);
        let a = &state.agents[i];
        agents.push(
            Agent {
                name: a.name.clone(),
                endpoint: a.endpoint.clone(),
                max_cycles: a.max_cycles,
                proxy_token: None,
            },
        );
        proof {
            assert(state@.agents[i as int] == a@);
            assert(agent_views(agents@) =~= before.push(without_token(a@)));
            assert(target.take(i + 1) =~= target.take(i as int).push(target[i as int]));
        }
        i += 1;
    }
    assert(target.take(state.agents.len() as int) =~= target);
    StateInfo {
        ecdsa_key_name: state.ecdsa_key_name.clone(),
        proxy_token_public_key: state.proxy_token_public_key.clone(),
        proxy_token_refresh_interval: state.proxy_token_refresh_interval,
        agents,
        managers: clone_ids(&state.managers),
        callers: state.callers.len() as u64,
        subnet_size: state.subnet_size,
        service_fee: state.service_fee,
        incoming_cycles: state.incoming_cycles,
        uncollectible_cycles: state.uncollectible_cycles,
        cose: match &state.cose {
            Some(c) => Some(c.clone()),
            None => None,
        },
    }
}

/// What is kept of a caller: the cycles it has spent and the time of its last call.
pub fn caller_info(state: &State, id: &[u8]) -> (r: Option<(u128, u64)>)
    ensures
        r is Some <==> has_caller(state@.callers, id@),
        r matches Some(kept) ==> exists|i: int|
            0 <= i < state@.callers.len() && #[trigger] state@.callers[i] == (id@, kept.0, kept.1),
{
    match find_caller(&state.callers, id) {
        Some(i) => {
            let c = &state.callers[i];
            assert(state@.callers[i as int] == (id@, c.cycles, c.last_seen_ms));
            Some((c.cycles, c.last_seen_ms))
        },
        None => None,
    }
}

/// The path under which the key for the agents' tokens is derived.
pub fn sign_proxy_token_path() -> (path: Vec<u8>)
    ensures
        path@ == vstd::utf8::encode_utf8("sign_proxy_token"@),
{
    "sign_proxy_token".as_bytes_vec()
}

impl State {
    /// Who signs the agents' tokens: the key of this name, kept where `cose` says.
    pub fn signer(&self) -> (r: Signer)
        ensures
            r.key_name@ == self@.ecdsa_key_name,
            cose_view(r.cose) == self@.cose,
    {
        Signer {
            key_name: self.ecdsa_key_name.clone(),
            cose: match &self.cose {
                Some(c) => Some(c.clone()),
                None => None,
            },
        }
    }
}

impl Signer {
    /// The digest that is signed for a token: the SHA3-256 digest of the binary
    /// form of the pair (expiry, subject).
    pub fn proxy_token_digest(&self, expire_at: u64, message: &str) -> (digest: [u8; 32])
        ensures
            digest@ == sha3_256_digest(claims_bytes(expire_at, message@)),
    {
        let claims = encode_claims(expire_at, message);
        sha3_256(claims.as_slice())
    }

    /// The token as it travels: the binary form of the triple (expiry, subject,
    /// signature) in base64url without padding. It is read back as that triple.
    pub fn sign_proxy_token(&self, expire_at: u64, message: &str, signature: &[u8]) -> (token: String)
        ensures
            token@ == base64url_encoding(token_bytes(expire_at, message@, signature@)),
            base64url_decoding(token@) matches Ok(data) && parsed_token(data) == Some(
                (expire_at, message@, signature@),
            ),
    {
        let data = encode_token(expire_at, message, signature);
        base64url_encode(data.as_slice())
    }

    /// The public key as it is published: in base64url without padding.
    pub fn ecdsa_public_key(&self, public_key: &[u8]) -> (text: String)
        ensures
            text@ == base64url_encoding(public_key@),
    {
        base64url_encode(public_key)
    }
}

} // verus!

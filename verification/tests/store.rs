use idempotent_proxy::agent::Agent;
use idempotent_proxy::auth::ecdsa_verify_at;
use idempotent_proxy::init::{init, post_upgrade, ChainArgs, InitArgs, InitError, UpgradeArgs};
use idempotent_proxy::store::{
    admin_add_caller, admin_add_callers, admin_add_managers, admin_remove_callers,
    admin_remove_managers, admin_set_managers, caller_info, cycles_calculator, get_agents,
    is_allowed, is_manager, load, receive_cycles, save, sign_proxy_token_path, state_info,
    update_caller_state, validate_admin_set_agents, validate_principals, AdminError, CallerEntry,
    CoseClient, State,
};
use base64::Engine;
use k256::ecdsa::signature::hazmat::PrehashSigner;

fn id(n: u8) -> Vec<u8> {
    vec![n, n, n]
}

fn agent(name: &str) -> Agent {
    Agent { name: name.to_string(), endpoint: "https://p".to_string(), max_cycles: 1, proxy_token: Some("t".to_string()) }
}

#[test]
fn lists_of_identities_are_checked() {
    assert_eq!(validate_principals(&vec![]), Err(AdminError::Empty));
    assert_eq!(validate_principals(&vec![id(1), vec![4]]), Err(AdminError::Anonymous));
    assert_eq!(validate_principals(&vec![id(4), vec![4, 4]]), Ok(()));
    assert_eq!(AdminError::Empty.message(), "principals cannot be empty");
    assert_eq!(AdminError::Anonymous.message(), "anonymous user is not allowed");
    assert_eq!(AdminError::AnonymousCaller.message(), "anonymous caller cannot be added");
    assert_eq!(AdminError::NoAgents.message(), "agents cannot be empty");
    assert_eq!(validate_admin_set_agents(&vec![]), Err(AdminError::NoAgents));
    assert_eq!(validate_admin_set_agents(&vec![agent("a")]), Ok(()));
    assert_eq!(
        candid::Principal::anonymous().as_slice(),
        &[4u8][..]
    );
}

#[test]
fn managers_are_added_removed_and_replaced() {
    let mut state = State::default();
    assert_eq!(admin_add_managers(&mut state, &vec![]), Err(AdminError::Empty));
    admin_add_managers(&mut state, &vec![id(1), id(2), id(1)]).unwrap();
    admin_add_managers(&mut state, &vec![id(3), id(2)]).unwrap();
    assert_eq!(state.managers, vec![id(1), id(2), id(3)]);
    assert!(is_manager(&state, &id(2)) && !is_manager(&state, &id(9)));
    assert_eq!(admin_remove_managers(&mut state, &vec![vec![4]]), Err(AdminError::Anonymous));
    admin_remove_managers(&mut state, &vec![id(2), id(9)]).unwrap();
    assert_eq!(state.managers, vec![id(1), id(3)]);
    admin_set_managers(&mut state, vec![id(7)]).unwrap();
    assert_eq!(state.managers, vec![id(7)]);
    assert_eq!(admin_set_managers(&mut state, vec![]), Err(AdminError::Empty));
    assert_eq!(state.managers, vec![id(7)]);
    // the managers are a set: an identity that is given twice is kept once
    admin_set_managers(&mut state, vec![id(5), id(6), id(5), id(6), id(8)]).unwrap();
    assert_eq!(state.managers, vec![id(5), id(6), id(8)]);
    admin_add_managers(&mut state, &vec![id(9), id(5), id(9)]).unwrap();
    assert_eq!(state.managers, vec![id(5), id(6), id(8), id(9)]);
}

#[test]
fn callers_are_allowed_and_charged() {
    let mut state = State::default();
    assert_eq!(admin_add_caller(&mut state, vec![4]), Err(AdminError::AnonymousCaller));
    assert_eq!(admin_add_caller(&mut state, id(1)), Ok(true));
    assert_eq!(admin_add_caller(&mut state, id(1)), Ok(false));
    admin_add_callers(&mut state, &vec![id(2), id(1), id(3)]).unwrap();
    assert_eq!(state.callers.len(), 3);
    assert!(is_allowed(&state, &id(3)) && !is_allowed(&state, &id(4)));

    update_caller_state(&mut state, &id(2), 500, 1_700_000_000_000);
    update_caller_state(&mut state, &id(2), 250, 1_700_000_000_001);
    update_caller_state(&mut state, &id(9), 250, 5);
    assert_eq!(caller_info(&state, &id(2)), Some((750, 1_700_000_000_001)));
    assert_eq!(caller_info(&state, &id(1)), Some((0, 0)));
    assert_eq!(caller_info(&state, &id(9)), None);
    update_caller_state(&mut state, &id(2), u128::MAX, 6);
    assert_eq!(caller_info(&state, &id(2)), Some((u128::MAX, 6)));

    admin_remove_callers(&mut state, &vec![id(1), id(3)]).unwrap();
    assert_eq!(state.callers.len(), 1);
    assert!(is_allowed(&state, &id(2)));
    assert_eq!(admin_remove_callers(&mut state, &vec![]), Err(AdminError::Empty));
}

#[test]
fn cycles_are_counted_as_received_or_uncollectible() {
    let mut state = State::default();
    assert!(receive_cycles(&mut state, 100, 100, false));
    assert!(!receive_cycles(&mut state, 100, 40, false));
    assert!(receive_cycles(&mut state, 100, 40, true));
    assert!(receive_cycles(&mut state, 0, 0, false));
    assert_eq!(state.incoming_cycles, 180);
    assert_eq!(state.uncollectible_cycles, 120);
    assert!(receive_cycles(&mut state, u128::MAX, u128::MAX - 1, true));
    assert_eq!(state.incoming_cycles, u128::MAX);
    assert_eq!(state.uncollectible_cycles, 121);
}

#[test]
fn loading_moves_the_old_callers_into_the_new_list() {
    let mut stored = State::default();
    stored.allowed_callers = vec![id(1), id(2)];
    stored.callers = vec![CallerEntry { id: id(2), cycles: 9, last_seen_ms: 8 }];
    stored.agents = vec![agent("a")];
    stored.subnet_size = 13;
    stored.service_fee = 5;
    let kept = save(&stored);
    assert_eq!(kept.allowed_callers, vec![id(1), id(2)]);
    let state = load(stored);
    assert!(state.allowed_callers.is_empty());
    assert_eq!(caller_info(&state, &id(2)), Some((9, 8)));
    assert_eq!(caller_info(&state, &id(1)), Some((0, 0)));
    assert_eq!(state.callers.len(), 2);
    assert_eq!(get_agents(&state).len(), 1);
    assert_eq!(get_agents(&state)[0].name, "a");
    let calc = cycles_calculator(&state);
    assert_eq!((calc.subnet_size, calc.service_fee), (13, 5));
}

#[test]
fn the_state_is_told_without_tokens() {
    let mut state = State::default();
    state.agents = vec![agent("a"), agent("b")];
    state.managers = vec![id(1)];
    state.callers = vec![CallerEntry { id: id(2), cycles: 9, last_seen_ms: 8 }];
    state.cose = Some(CoseClient { id: id(5), namespace: "ns".to_string() });
    state.incoming_cycles = 77;
    let info = state_info(&state);
    assert_eq!(info.agents.len(), 2);
    assert!(info.agents.iter().all(|a| a.proxy_token.is_none()));
    assert_eq!(info.agents[1].name, "b");
    assert_eq!(info.callers, 1);
    assert_eq!(info.managers, vec![id(1)]);
    assert_eq!(info.incoming_cycles, 77);
    assert_eq!(info.cose.unwrap().namespace, "ns");
    assert_eq!(state.agents[0].proxy_token.as_deref(), Some("t"));
}

#[test]
fn a_signed_proxy_token_is_accepted_by_the_verifier() {
    let mut state = State::default();
    state.ecdsa_key_name = "test_key_1".to_string();
    let signer = state.signer();
    assert_eq!(signer.key_name, "test_key_1");
    assert_eq!(sign_proxy_token_path(), b"sign_proxy_token");

    let key = k256::ecdsa::SigningKey::from_slice(&[33u8; 32]).unwrap();
    let digest = signer.proxy_token_digest(5_000, "alice");
    let signature: k256::ecdsa::Signature = key.sign_prehash(&digest).unwrap();
    let token = signer.sign_proxy_token(5_000, "alice", &signature.to_vec());
    let data = base64::engine::general_purpose::URL_SAFE_NO_PAD.decode(&token).unwrap();
    let public = k256::ecdsa::VerifyingKey::from(&key).to_sec1_bytes().to_vec();
    let verified = ecdsa_verify_at(&[public.clone()], &data, 4_000).unwrap();
    assert_eq!((verified.0, verified.1.as_str()), (5_000, "alice"));
    assert_eq!(
        signer.ecdsa_public_key(&public),
        base64::engine::general_purpose::URL_SAFE_NO_PAD.encode(&public)
    );
}

#[test]
fn installation_takes_its_arguments() {
    let mut state = State::default();
    assert_eq!(init(&mut state, None), Err(InitError::Missing));
    let upgrade = UpgradeArgs { proxy_token_refresh_interval: None, subnet_size: None, service_fee: None, cose: None };
    assert_eq!(init(&mut state, Some(ChainArgs::Upgrade(upgrade))), Err(InitError::UpgradeOnInit));
    let args = InitArgs {
        ecdsa_key_name: "dfx_test_key".to_string(),
        proxy_token_refresh_interval: 9,
        subnet_size: 13,
        service_fee: 0,
        cose: None,
    };
    init(&mut state, Some(ChainArgs::Init(args))).unwrap();
    assert_eq!(state.ecdsa_key_name, "dfx_test_key");
    assert_eq!(state.proxy_token_refresh_interval, 3600);
    assert_eq!(state.service_fee, 100_000_000);
    assert_eq!(state.subnet_size, 13);
    let args = InitArgs {
        ecdsa_key_name: "k".to_string(),
        proxy_token_refresh_interval: 10,
        subnet_size: 0,
        service_fee: 1,
        cose: Some(CoseClient { id: id(1), namespace: "n".to_string() }),
    };
    init(&mut state, Some(ChainArgs::Init(args))).unwrap();
    assert_eq!((state.proxy_token_refresh_interval, state.service_fee, state.subnet_size), (10, 1, 0));
    assert!(state.cose.is_some());
    assert_eq!(InitError::Missing.message(), "init args is missing");
}

#[test]
fn an_upgrade_replaces_what_it_names() {
    let mut state = State::default();
    state.proxy_token_refresh_interval = 3600;
    state.subnet_size = 13;
    state.service_fee = 5;
    post_upgrade(&mut state, None).unwrap();
    let init_args = InitArgs {
        ecdsa_key_name: "k".to_string(),
        proxy_token_refresh_interval: 10,
        subnet_size: 0,
        service_fee: 1,
        cose: None,
    };
    assert_eq!(post_upgrade(&mut state, Some(ChainArgs::Init(init_args))), Err(InitError::InitOnUpgrade));
    let short = UpgradeArgs { proxy_token_refresh_interval: Some(9), subnet_size: Some(1), service_fee: None, cose: None };
    assert_eq!(post_upgrade(&mut state, Some(ChainArgs::Upgrade(short))), Err(InitError::ShortInterval));
    assert_eq!(InitError::ShortInterval.message(), "proxy_token_refresh_interval must be at least 10 seconds");
    assert_eq!((state.proxy_token_refresh_interval, state.subnet_size, state.service_fee), (3600, 13, 5));
    let args = UpgradeArgs {
        proxy_token_refresh_interval: Some(10),
        subnet_size: None,
        service_fee: Some(0),
        cose: Some(CoseClient { id: id(1), namespace: "n".to_string() }),
    };
    post_upgrade(&mut state, Some(ChainArgs::Upgrade(args))).unwrap();
    assert_eq!((state.proxy_token_refresh_interval, state.subnet_size, state.service_fee), (10, 13, 0));
    assert_eq!(state.cose.as_ref().unwrap().namespace, "n");
    let args = UpgradeArgs { proxy_token_refresh_interval: None, subnet_size: None, service_fee: None, cose: None };
    post_upgrade(&mut state, Some(ChainArgs::Upgrade(args))).unwrap();
    assert!(state.cose.is_some());
}

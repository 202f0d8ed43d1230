use idempotent_proxy::agent::Agent;
use idempotent_proxy::store::Signer;
use idempotent_proxy::tasks::{update_proxy_token, Refresh, RefreshAction, RefreshEvent};

fn agent(name: &str, token: Option<&str>) -> Agent {
    Agent {
        name: name.to_string(),
        endpoint: format!("https://{}", name),
        max_cycles: 1,
        proxy_token: token.map(|t| t.to_string()),
    }
}

fn signer() -> Signer {
    Signer { key_name: "k".to_string(), cose: None }
}

#[test]
fn one_token_is_signed_for_each_name() {
    let signer = signer();
    let agents = vec![agent("a", Some("old")), agent("b", None), agent("a", None), agent("b", Some("old"))];
    let (state, action) =
        update_proxy_token(&signer, Refresh::Idle, RefreshEvent::Begin { agents, interval: 3600, now_seconds: 1_000 });
    let digest_a = match action {
        RefreshAction::Sign { digest } => digest,
        _ => panic!("the token of the first agent is signed"),
    };
    assert_eq!(digest_a, signer.proxy_token_digest(1_000 + 3600 + 120, "a"));
    assert!(matches!(&state, Refresh::Signing { index: 0, expire_at: 4_720, .. }));

    let (state, action) = update_proxy_token(
        &signer,
        state,
        RefreshEvent::Signed { signature: Ok(vec![1; 64]), now_seconds: 1_001 },
    );
    assert!(matches!(&state, Refresh::Signing { index: 1, expire_at: 4_721, .. }));
    assert!(matches!(action, RefreshAction::Sign { digest } if digest == signer.proxy_token_digest(4_721, "b")));

    let (state, action) = update_proxy_token(
        &signer,
        state,
        RefreshEvent::Signed { signature: Ok(vec![2; 64]), now_seconds: 1_002 },
    );
    assert!(matches!(state, Refresh::Done));
    let agents = match action {
        RefreshAction::Install { agents } => agents,
        _ => panic!("the agents are installed"),
    };
    let token_a = signer.sign_proxy_token(4_720, "a", &[1; 64]);
    let token_b = signer.sign_proxy_token(4_721, "b", &[2; 64]);
    let tokens: Vec<Option<String>> = agents.iter().map(|a| a.proxy_token.clone()).collect();
    assert_eq!(
        tokens,
        vec![Some(token_a.clone()), Some(token_b.clone()), Some(token_a), Some(token_b)]
    );
    let names: Vec<&str> = agents.iter().map(|a| a.name.as_str()).collect();
    assert_eq!(names, vec!["a", "b", "a", "b"]);
}

#[test]
fn a_failed_signature_leaves_everything_as_it_is() {
    let signer = signer();
    let agents = vec![agent("a", Some("old"))];
    let (state, _) =
        update_proxy_token(&signer, Refresh::Idle, RefreshEvent::Begin { agents, interval: 10, now_seconds: 5 });
    let (state, action) = update_proxy_token(
        &signer,
        state,
        RefreshEvent::Signed { signature: Err("sign_with_ecdsa failed".to_string()), now_seconds: 6 },
    );
    assert!(matches!(state, Refresh::Done));
    assert!(matches!(action, RefreshAction::Fail { why } if why == "sign_with_ecdsa failed"));
}

#[test]
fn without_agents_nothing_is_done() {
    let signer = signer();
    let (state, action) = update_proxy_token(
        &signer,
        Refresh::Idle,
        RefreshEvent::Begin { agents: vec![], interval: 10, now_seconds: 5 },
    );
    assert!(matches!(state, Refresh::Done));
    assert!(matches!(action, RefreshAction::Nothing));
    let (_, action) = update_proxy_token(
        &signer,
        Refresh::Done,
        RefreshEvent::Signed { signature: Ok(vec![]), now_seconds: 6 },
    );
    assert!(matches!(action, RefreshAction::Fail { why } if why == "unexpected event"));
    // the expiry does not wrap
    let (state, _) = update_proxy_token(
        &signer,
        Refresh::Idle,
        RefreshEvent::Begin { agents: vec![agent("a", None)], interval: u64::MAX, now_seconds: 5 },
    );
    assert!(matches!(state, Refresh::Signing { expire_at: u64::MAX, .. }));
}

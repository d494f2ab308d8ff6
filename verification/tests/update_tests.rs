use duckdns_updater::config::AppConfig;
use duckdns_updater::update::{
    reply_reports_success, retry_delay_secs, UpdateRequest, UpdateRound, UpdateStep, MAX_RETRIES,
};

fn configured() -> AppConfig {
    let mut c = AppConfig::default();
    c.domains = vec![" casa ".to_string(), "escritorio".to_string()];
    c.token = "  segredo \n".to_string();
    c
}

fn some(s: &str) -> Option<String> {
    Some(s.to_string())
}

#[test]
fn request_needs_domain_then_token() {
    let mut c = AppConfig::default();
    c.domain = "   ".to_string();
    c.token = "t".to_string();
    match UpdateRequest::from_config(&c) {
        Err(e) => assert_eq!(e, "O domínio não pode estar vazio."),
        Ok(_) => panic!("blank domain accepted"),
    }
    c.domain = "d".to_string();
    c.token = " \t".to_string();
    match UpdateRequest::from_config(&c) {
        Err(e) => assert_eq!(e, "O token não pode estar vazio."),
        Ok(_) => panic!("blank token accepted"),
    }
}

#[test]
fn request_trims_its_parameters() {
    let r = UpdateRequest::from_config(&configured()).ok().unwrap();
    assert_eq!(r.domains, "casa ,escritorio");
    assert_eq!(r.token, "segredo");
    assert!(r.ipv6_enabled);
}

#[test]
fn change_detection() {
    let mut c = configured();
    c.last_ipv4 = some("1.1.1.1");
    c.last_ipv6 = some("::1");
    let req = || UpdateRequest::from_config(&configured()).ok().unwrap();
    assert!(!UpdateRound::new(req(), &c, some("1.1.1.1"), some("::1")).ip_changed);
    assert!(UpdateRound::new(req(), &c, some("2.2.2.2"), some("::1")).ip_changed);
    assert!(UpdateRound::new(req(), &c, some("1.1.1.1"), some("::2")).ip_changed);
    assert!(UpdateRound::new(req(), &c, None, some("::1")).ip_changed);
    c.ipv6_enabled = false;
    let round = UpdateRound::new(req(), &c, some("1.1.1.1"), some("::2"));
    assert!(!round.ip_changed);
    assert_eq!(round.ipv6, None);
}

#[test]
fn recorded_round_sees_no_change() {
    let mut c = configured();
    let req = || UpdateRequest::from_config(&configured()).ok().unwrap();
    let mut first = UpdateRound::new(req(), &c, some("9.9.9.9"), some("::9"));
    assert!(first.ip_changed);
    let result = match first.on_outcome(Ok("OK".to_string())) {
        UpdateStep::Finished(Ok(r)) => r,
        _ => panic!("reply did not finish the round"),
    };
    c.record_update(&result, "agora".to_string());
    let second = UpdateRound::new(req(), &c, some("9.9.9.9"), some("::9"));
    assert!(!second.ip_changed);
}

#[test]
fn unchanged_address_needs_no_request() {
    let mut c = configured();
    c.last_ipv4 = some("5.5.5.5");
    c.last_ipv6 = some("::5");
    let req = || UpdateRequest::from_config(&configured()).ok().unwrap();
    let same = UpdateRound::new(req(), &c, some("5.5.5.5"), some("::5"));
    let r = same.unchanged_outcome().expect("no request expected");
    assert!(r.success);
    assert!(!r.ip_changed);
    assert_eq!(r.ipv4.as_deref(), Some("5.5.5.5"));
    assert_eq!(r.ipv6.as_deref(), Some("::5"));
    assert_eq!(r._response, "");
    let moved = UpdateRound::new(req(), &c, some("6.6.6.6"), some("::5"));
    assert!(moved.unchanged_outcome().is_none());
}

#[test]
fn query_lists_parameters_in_order() {
    let c = configured();
    let req = UpdateRequest::from_config(&c).ok().unwrap();
    let round = UpdateRound::new(req, &c, some("1.2.3.4"), some("::1"));
    let q: Vec<(String, String)> = round.query();
    let expected: Vec<(String, String)> = vec![
        ("domains".into(), "casa ,escritorio".into()),
        ("token".into(), "segredo".into()),
        ("verbose".into(), "true".into()),
        ("ip".into(), "1.2.3.4".into()),
        ("ipv6".into(), "::1".into()),
    ];
    assert_eq!(q, expected);
    let req = UpdateRequest::from_config(&c).ok().unwrap();
    let bare = UpdateRound::new(req, &c, None, None);
    assert_eq!(bare.query().len(), 3);
}

#[test]
fn reply_success_is_case_insensitive() {
    assert!(reply_reports_success("OK"));
    assert!(reply_reports_success("ok\n1.2.3.4\n\nUPDATED"));
    assert!(reply_reports_success("Ok"));
    assert!(!reply_reports_success("KO"));
    assert!(!reply_reports_success(""));
    assert!(!reply_reports_success("bad"));
}

#[test]
fn backoff_waits_five_fifteen_fortyfive_seconds() {
    assert_eq!(retry_delay_secs(1), 5);
    assert_eq!(retry_delay_secs(2), 15);
    assert_eq!(retry_delay_secs(3), 45);
}

#[test]
fn failing_round_gives_up_after_four_requests() {
    let c = configured();
    let req = UpdateRequest::from_config(&c).ok().unwrap();
    let mut round = UpdateRound::new(req, &c, some("1.2.3.4"), None);
    let mut waits = Vec::new();
    let mut requests = 0;
    let final_err;
    loop {
        requests += 1;
        match round.on_outcome(Err(format!("erro {}", requests))) {
            UpdateStep::RetryAfter(s) => waits.push(s),
            UpdateStep::Finished(Err(e)) => {
                final_err = e;
                break;
            }
            UpdateStep::Finished(Ok(_)) => panic!("failure reported as success"),
        }
    }
    assert_eq!(requests, MAX_RETRIES + 1);
    assert_eq!(waits, vec![5, 15, 45]);
    assert_eq!(final_err, "Falha após 4 tentativas: erro 4");
}

#[test]
fn reply_after_retry_finishes_round() {
    let c = configured();
    let req = UpdateRequest::from_config(&c).ok().unwrap();
    let mut round = UpdateRound::new(req, &c, some("1.2.3.4"), some("::1"));
    match round.on_outcome(Err("x".to_string())) {
        UpdateStep::RetryAfter(5) => {}
        _ => panic!("expected a retry"),
    }
    match round.on_outcome(Ok("KO".to_string())) {
        UpdateStep::Finished(Ok(r)) => {
            assert!(!r.success);
            assert_eq!(r.ipv4.as_deref(), Some("1.2.3.4"));
            assert_eq!(r.ipv6.as_deref(), Some("::1"));
            assert_eq!(r._response, "KO");
        }
        _ => panic!("expected the round to finish"),
    }
}

use phantom::relay::worker_client::{WorkerClient, WorkerReply};
use phantom::relay::worker_pool::{PoolRound, PoolStep, WorkerPool};
use phantom::signaling::discovery::{ConnectionState, WorkerDiscovery};
use phantom::signaling::doh::{parse_worker, DnsRecord, DohDiscovery, DohFault, DohResponse};
use phantom::signaling::failover::{FailoverManager, FailoverStep};
use phantom::signaling::nostr::{
    add_listed, NostrDiscovery, WorkerEvent, WorkerTag, WORKER_LIST_IDENTIFIER, WORKER_LIST_KIND,
};
use phantom::utils::error::PhantomError;

fn texts(list: &[&str]) -> Vec<String> {
    list.iter().map(|s| s.to_string()).collect()
}

fn txt(data: &str) -> DnsRecord {
    DnsRecord { data: Some(data.to_string()), record_type: 16 }
}

fn doh() -> DohDiscovery {
    DohDiscovery::new("https://dns.example///".to_string(), "w.example".to_string())
}

#[test]
fn a_record_names_a_worker() {
    assert_eq!(parse_worker("\"phantom-worker=https://a\"").unwrap(), "https://a");
    assert_eq!(parse_worker("phantom-worker=").unwrap(), "");
    assert_eq!(parse_worker("\"v=spf1\""), None);
    assert_eq!(parse_worker("\"\""), None);
}

#[test]
fn the_endpoint_loses_its_slashes() {
    assert_eq!(
        doh().query_url(),
        "https://dns.example/dns-query?name=w.example&type=TXT"
    );
}

#[test]
fn text_records_are_searched() {
    let body = DohResponse {
        answer: Some(vec![
            txt("\"phantom-worker=https://b\""),
            DnsRecord { data: Some("phantom-worker=https://x".to_string()), record_type: 1 },
            DnsRecord { data: None, record_type: 16 },
            txt("\"other\""),
            txt("phantom-worker=https://a"),
        ]),
        status: 0,
    };
    assert_eq!(doh().query_workers(&body).unwrap(), texts(&["https://b", "https://a"]));
    assert_eq!(
        doh().query_workers(&DohResponse { answer: None, status: 0 }).unwrap(),
        Vec::<String>::new()
    );
    assert_eq!(
        doh().query_workers(&DohResponse { answer: None, status: 3 }).unwrap_err().to_text(),
        "Signaling error: DNS query returned error status: 3"
    );
}

#[test]
fn query_faults_say_what_failed() {
    assert!(doh().check_status(204, "204 No Content").is_ok());
    assert_eq!(
        doh().check_status(404, "404 Not Found").unwrap_err().to_text(),
        "Signaling error: DoH request returned status 404 Not Found"
    );
    assert_eq!(
        DohFault::Request("x".to_string()).into_error().to_text(),
        "Signaling error: DoH request failed: x"
    );
    assert_eq!(
        DohFault::Parse("x".to_string()).into_error().to_text(),
        "Signaling error: Failed to parse DoH response: x"
    );
}

fn tag(is_identifier: bool, content: &str) -> WorkerTag {
    WorkerTag { is_identifier, content: Some(content.to_string()) }
}

fn nostr() -> NostrDiscovery {
    NostrDiscovery::new(texts(&["wss://r"]), "npub1".to_string())
}

#[test]
fn published_workers_are_discovered() {
    let workers = texts(&["https://a", "say \"hi\"\n", "\u{00fc}"]);
    let content = nostr().publish_workers(&workers).unwrap();
    assert_eq!(content, "[\"https://a\",\"say \\\"hi\\\"\\n\",\"\u{00fc}\"]");
    let event = WorkerEvent {
        kind: WORKER_LIST_KIND,
        content: content.clone(),
        tags: vec![tag(true, WORKER_LIST_IDENTIFIER)],
    };
    assert_eq!(nostr().discover_workers(&vec![event]), workers);
    assert_eq!(nostr().on_event(WORKER_LIST_KIND, &content), Some(workers));
    assert_eq!(nostr().on_event(1, &content), None);
    assert_eq!(nostr().on_event(WORKER_LIST_KIND, "not json"), None);
}

#[test]
fn each_marking_tag_counts() {
    let event = |content: &str, tags: Vec<WorkerTag>| WorkerEvent {
        kind: WORKER_LIST_KIND,
        content: content.to_string(),
        tags,
    };
    let mark = || tag(true, WORKER_LIST_IDENTIFIER);
    let events = vec![
        event("[\"a\"]", vec![mark(), tag(false, WORKER_LIST_IDENTIFIER), mark()]),
        event("[\"b\"]", vec![tag(true, "other")]),
        event("oops", vec![mark()]),
        event("[\"c\",\"a\"]", vec![mark(), WorkerTag { is_identifier: true, content: None }]),
    ];
    assert_eq!(nostr().discover_workers(&events), texts(&["a", "a", "c", "a"]));
    let mut found = texts(&["z"]);
    add_listed(&mut found, &vec![mark()], &Ok(texts(&["y"])));
    add_listed(&mut found, &vec![mark()], &Err("no".to_string()));
    assert_eq!(found, texts(&["z", "y"]));
}

#[test]
fn the_publisher_is_a_key() {
    let shown = "npub180cvv07tjdrrgpa0j7j7tmnyl2yr6yr7l8j4s3evf6u64th6gkwsyjh6w6";
    let d = NostrDiscovery::new(vec![], shown.to_string());
    let key = d.author().unwrap();
    assert_eq!(key.len(), 32);
    assert_eq!(key[..4], [0x3b, 0xf0, 0xc6, 0x3f]);
    assert!(nostr().author().unwrap_err().to_text().starts_with("Signaling error: Invalid pubkey: "));
    assert_eq!(
        d.publish_failed("x").to_text(),
        "Signaling error: Failed to publish workers: x"
    );
    assert_eq!(d.fetch_failed("x").to_text(), "Signaling error: Failed to fetch events: x");
}

#[test]
fn a_refresh_keeps_each_worker_once() {
    let mut d = WorkerDiscovery::new(ConnectionState::Disconnected);
    d.start();
    assert_eq!(d.get_state(), ConnectionState::Connecting);
    d.refresh(Ok(texts(&["c", "a", "c"])), Ok(texts(&["b", "a"]))).unwrap();
    assert_eq!(d.get_workers(), texts(&["a", "b", "c"]));
    assert_eq!(d.get_state(), ConnectionState::Connected);
    d.refresh(Err(PhantomError::Cancelled), Ok(texts(&["z"]))).unwrap();
    assert_eq!(d.get_workers(), texts(&["z"]));
    let e = d.refresh(Err(PhantomError::Cancelled), Ok(vec![])).unwrap_err();
    assert_eq!(e.to_text(), "Signaling error: No workers discovered from any source");
    assert_eq!(d.get_state(), ConnectionState::Failed);
    assert_eq!(d.get_workers(), texts(&["z"]));
    d.on_published(texts(&["q", "p"]));
    assert_eq!(d.get_workers(), texts(&["q", "p"]));
    assert_eq!(d.get_state(), ConnectionState::Connected);
}

#[test]
fn health_is_an_answer_with_success() {
    assert!(FailoverManager::check_health("u", Some(200)));
    assert!(FailoverManager::check_health("u", Some(299)));
    assert!(!FailoverManager::check_health("u", Some(300)));
    assert!(!FailoverManager::check_health("u", Some(199)));
    assert!(!FailoverManager::check_health("u", None));
    assert!(!FailoverManager::check_health("", Some(200)));
    assert!(!FailoverManager::can_check(""));
}

#[test]
fn a_switch_takes_the_first_healthy_worker() {
    let mut m = FailoverManager::new();
    let workers = texts(&["a", "b", "c"]);
    assert_eq!(m.health_check_interval_secs, 30);
    assert_eq!(m.switch_worker(&workers).unwrap(), FailoverStep::Check(0));
    assert_eq!(m.after_switch_check(&workers, 0, false), FailoverStep::Check(1));
    assert_eq!(m.after_switch_check(&workers, 1, true), FailoverStep::Use(1));
    assert_eq!(m.after_switch_check(&workers, 2, false), FailoverStep::Use(0));
    m.use_worker(&workers, 1);
    assert_eq!(m.get_active_worker(), "b");
    assert_eq!(
        m.switch_worker(&vec![]).unwrap_err().to_text(),
        "Signaling error: No workers available for failover"
    );
}

#[test]
fn a_sick_worker_is_replaced_by_another() {
    let mut m = FailoverManager::new();
    let workers = texts(&["a", "b", "a", "c"]);
    m.use_worker(&workers, 0);
    assert_eq!(m.after_health_check(&workers, true), FailoverStep::Keep);
    assert_eq!(m.after_health_check(&workers, false), FailoverStep::Check(1));
    assert_eq!(m.after_other_check(&workers, 1, false), FailoverStep::Check(3));
    assert_eq!(m.after_other_check(&workers, 3, true), FailoverStep::Use(3));
    assert_eq!(m.after_other_check(&workers, 3, false), FailoverStep::Keep);
    assert_eq!(m.after_health_check(&texts(&["a"]), false), FailoverStep::Keep);
    assert_eq!(m.after_health_check(&vec![], false), FailoverStep::Keep);
}

#[test]
fn a_worker_answers_or_fails() {
    let c = WorkerClient::new("https://w".to_string());
    assert_eq!(c.url(), "https://w");
    assert_eq!(c.send(WorkerReply::Answered(201, Ok(vec![1]))).unwrap(), vec![1]);
    let cases = vec![
        (WorkerReply::NotSent("x".to_string()), "Relay error: Worker request failed: x"),
        (WorkerReply::Answered(502, Ok(vec![1])), "Relay error: Worker returned status 502"),
        (
            WorkerReply::Answered(200, Err("cut".to_string())),
            "Relay error: Failed to read response body: cut",
        ),
    ];
    for (reply, text) in cases {
        assert_eq!(c.send(reply).unwrap_err().to_text(), text);
    }
}

fn failed() -> Result<Vec<u8>, PhantomError> {
    Err(PhantomError::Cancelled)
}

#[test]
fn a_pool_goes_on_from_the_worker_that_served() {
    let mut p = WorkerPool::new(texts(&["a", "b", "c"]));
    let round = p.begin().unwrap();
    assert_eq!(p.index(&round), 0);
    let next = match p.after(round, failed()) {
        PoolStep::Next(next) => next,
        PoolStep::Done(_) => unreachable!(),
    };
    assert_eq!(p.index(&next), 1);
    match p.after(next, Ok(vec![5])) {
        PoolStep::Done(Ok(data)) => assert_eq!(data, vec![5]),
        _ => unreachable!(),
    }
    assert_eq!(p.get_active_worker(), "b");
    let round = p.begin().unwrap();
    assert_eq!(p.index(&round), 1);
    assert_eq!(p.index(&PoolRound { start: 1, offset: 2 }), 0);
}

#[test]
fn a_round_fails_once_every_worker_has() {
    let mut p = WorkerPool::new(texts(&["a", "b"]));
    let mut round = p.begin().unwrap();
    let mut tried = vec![];
    loop {
        tried.push(p.index(&round));
        match p.after(round, failed()) {
            PoolStep::Next(next) => round = next,
            PoolStep::Done(r) => {
                assert_eq!(r.unwrap_err().to_text(), "Relay error: All workers in pool failed");
                break;
            }
        }
    }
    assert_eq!(tried, vec![0, 1]);
    assert_eq!(
        WorkerPool::new(vec![]).begin().unwrap_err().to_text(),
        "Relay error: No workers available in pool"
    );
}

#[test]
fn workers_come_and_go() {
    let mut p = WorkerPool::new(texts(&["a", "b"]));
    p.add_worker("a".to_string());
    assert_eq!(p.worker_count(), 3);
    p.active_index = 2;
    p.remove_worker("a");
    assert_eq!(p.worker_count(), 1);
    assert_eq!(p.active_index, 0);
    assert_eq!(p.get_active_worker(), "b");
    p.remove_worker("missing");
    assert_eq!(p.worker_count(), 1);
    p.remove_worker("b");
    assert_eq!(p.get_active_worker(), "");
}

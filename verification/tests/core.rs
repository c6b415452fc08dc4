use sase_core::engine::{handle_request, LogEntry, RequestAction, RequestMeta, BLOCKED_STATUS};
use sase_core::fanout::Hub;
use sase_core::policy::{classify, default_policy, str_contains, Decision, PolicyConfig};

fn meta_for(host: Option<&str>) -> RequestMeta {
    RequestMeta {
        src_ip: "192.168.1.10".to_string(),
        host: host.map(|h| h.to_string()),
        method: "GET".to_string(),
        url_path: "/index.html".to_string(),
        user_agent: Some("test-agent/1.0".to_string()),
    }
}

fn entry_for(domain: &str) -> LogEntry {
    LogEntry {
        timestamp: "12:00:00".to_string(),
        src_ip: "192.168.1.10".to_string(),
        domain: domain.to_string(),
        action: Decision::Allow,
        method: "GET".to_string(),
        url_path: "/".to_string(),
        user_agent: None,
    }
}

#[test]
fn substring_matching_rule() {
    assert!(str_contains("www.tiktok.com", "tiktok.com"));
    assert!(str_contains("tiktok.com", "tiktok.com"));
    assert!(str_contains("api.tiktok.com.evil.net", "tiktok.com"));
    assert!(!str_contains("example.com", "tiktok.com"));
    assert!(!str_contains("tiktok.co", "tiktok.com"));
    // case-sensitive as stored, no normalization
    assert!(!str_contains("www.TikTok.com", "tiktok.com"));
    // the empty needle occurs in every host
    assert!(str_contains("example.com", ""));
    assert!(str_contains("", ""));
    assert!(!str_contains("", "a"));
}

#[test]
fn classify_block_iff_some_domain_matches() {
    let domains = vec!["tiktok.com".to_string(), "ads.".to_string()];
    assert!(classify("www.tiktok.com", &domains) == Decision::Block);
    assert!(classify("ads.example.net", &domains) == Decision::Block);
    assert!(classify("example.net", &domains) == Decision::Allow);
    let empty: Vec<String> = Vec::new();
    assert!(classify("www.tiktok.com", &empty) == Decision::Allow);
}

#[test]
fn blocked_scenario_tiktok() {
    // blocklist = ["tiktok.com"]; www.tiktok.com is blocked with the fixed
    // 403 response; example.com passes through unmodified.
    let mut config = default_policy();
    let (action, entry) = handle_request(&mut config, &meta_for(Some("www.tiktok.com")));
    assert!(entry.action == Decision::Block);
    match action {
        RequestAction::Respond { status, body } => {
            assert_eq!(status, 403);
            assert_eq!(status, BLOCKED_STATUS);
            assert_eq!(body, "Blocked by SASE Pro");
        }
        RequestAction::Forward => panic!("blocked request must not be forwarded"),
    }
    assert_eq!(config.stats_blocked_today, 1);

    let (action, entry) = handle_request(&mut config, &meta_for(Some("example.com")));
    assert!(entry.action == Decision::Allow);
    assert!(matches!(action, RequestAction::Forward));
    assert_eq!(config.stats_blocked_today, 1);
}

#[test]
fn audit_record_carries_request_metadata() {
    let mut config = default_policy();
    let (_, entry) = handle_request(&mut config, &meta_for(Some("www.tiktok.com")));
    assert_eq!(entry.domain, "www.tiktok.com");
    assert_eq!(entry.src_ip, "192.168.1.10");
    assert_eq!(entry.method, "GET");
    assert_eq!(entry.url_path, "/index.html");
    assert_eq!(entry.user_agent, Some("test-agent/1.0".to_string()));
}

#[test]
fn unknown_host_defaults_to_allow() {
    let mut config = default_policy();
    let (action, entry) = handle_request(&mut config, &meta_for(None));
    assert!(entry.action == Decision::Allow);
    assert_eq!(entry.domain, "unknown");
    assert!(matches!(action, RequestAction::Forward));
    assert_eq!(config.stats_blocked_today, 0);
}

#[test]
fn counter_increases_by_one_per_block() {
    let mut config = default_policy();
    for _ in 0..5 {
        let (_, entry) = handle_request(&mut config, &meta_for(Some("m.tiktok.com")));
        assert!(entry.action == Decision::Block);
    }
    assert_eq!(config.stats_blocked_today, 5);
    // an Allow in between does not move the counter
    handle_request(&mut config, &meta_for(Some("example.com")));
    assert_eq!(config.stats_blocked_today, 5);
}

#[test]
fn posting_empty_policy_unblocks_immediately() {
    let mut config = default_policy();
    assert!(config.classify_and_count("www.tiktok.com") == Decision::Block);
    config.replace(PolicyConfig { blocked_domains: Vec::new(), stats_blocked_today: 0 });
    assert!(config.classify_and_count("www.tiktok.com") == Decision::Allow);
    assert_eq!(config.stats_blocked_today, 0);
    // adding a domain blocks matching hosts on the very next request
    config.replace(PolicyConfig {
        blocked_domains: vec!["example.org".to_string()],
        stats_blocked_today: 0,
    });
    assert!(config.classify_and_count("www.example.org") == Decision::Block);
    assert_eq!(config.stats_blocked_today, 1);
}

#[test]
fn get_after_post_round_trip() {
    let mut config = default_policy();
    let posted = PolicyConfig {
        blocked_domains: vec!["a.example".to_string(), "b.example".to_string()],
        stats_blocked_today: 42,
    };
    config.replace(posted);
    let snapshot = config.read();
    assert_eq!(snapshot.blocked_domains, vec!["a.example".to_string(), "b.example".to_string()]);
    assert_eq!(snapshot.stats_blocked_today, 42);
}

#[test]
fn snapshot_is_independent_of_later_replacements() {
    let mut config = default_policy();
    let snapshot = config.read();
    config.replace(PolicyConfig { blocked_domains: Vec::new(), stats_blocked_today: 9 });
    assert_eq!(snapshot.blocked_domains, vec!["tiktok.com".to_string()]);
    assert_eq!(snapshot.stats_blocked_today, 0);
}

#[test]
fn default_policy_contents() {
    let config = default_policy();
    assert_eq!(config.blocked_domains, vec!["tiktok.com".to_string()]);
    assert_eq!(config.stats_blocked_today, 0);
}

#[test]
fn subscriber_sees_no_history_and_next_entries_in_order() {
    let mut hub = Hub::new(100);
    let early = hub.subscribe();
    // M = 3 entries published before the late subscriber joins
    for name in ["one.example", "two.example", "three.example"] {
        hub.publish(&entry_for(name));
    }
    let late = hub.subscribe();
    assert!(hub.recv(late).is_none());
    // K = 2 entries published after; the late subscriber gets exactly those,
    // in publish order
    hub.publish(&entry_for("four.example"));
    hub.publish(&entry_for("five.example"));
    assert_eq!(hub.recv(late).unwrap().domain, "four.example");
    assert_eq!(hub.recv(late).unwrap().domain, "five.example");
    assert!(hub.recv(late).is_none());
    // the early subscriber missed nothing
    for name in ["one.example", "two.example", "three.example", "four.example", "five.example"] {
        assert_eq!(hub.recv(early).unwrap().domain, name);
    }
    assert!(hub.recv(early).is_none());
}

#[test]
fn slow_subscriber_loses_oldest_entries() {
    let mut hub = Hub::new(2);
    let id = hub.subscribe();
    hub.publish(&entry_for("one.example"));
    hub.publish(&entry_for("two.example"));
    hub.publish(&entry_for("three.example"));
    // capacity 2: the oldest entry was dropped, the publisher never failed
    assert_eq!(hub.recv(id).unwrap().domain, "two.example");
    assert_eq!(hub.recv(id).unwrap().domain, "three.example");
    assert!(hub.recv(id).is_none());
}

#[test]
fn publish_with_no_subscribers_is_a_no_op() {
    let mut hub = Hub::new(4);
    hub.publish(&entry_for("one.example"));
    let id = hub.subscribe();
    assert!(hub.recv(id).is_none());
}

#[test]
fn decision_labels() {
    assert_eq!(Decision::Block.label(), "BLOCK");
    assert_eq!(Decision::Allow.label(), "ALLOW");
}

use kuboard::contexts::build_context_list;
use kuboard::contexts::cache_is_fresh;
use kuboard::contexts::check_context_switch;
use kuboard::contexts::context_exists;
use kuboard::contexts::ClusterInfo;
use kuboard::contexts::ContextDetails;
use kuboard::contexts::ContextEntry;
use kuboard::contexts::KubeContext;

fn entry(name: &str, cluster: &str, user: Option<&str>, namespace: Option<&str>) -> ContextEntry {
    ContextEntry {
        name: name.to_string(),
        context: Some(ContextDetails {
            cluster: cluster.to_string(),
            user: user.map(|s| s.to_string()),
            namespace: namespace.map(|s| s.to_string()),
        }),
    }
}

#[test]
fn test_kuboard_context_list_logic() {
    let contexts = vec![KubeContext {
        name: "test-context".to_string(),
        cluster: "test-cluster".to_string(),
        user: "test-user".to_string(),
        namespace: Some("default".to_string()),
        is_current: true,
    }];

    assert_eq!(contexts.len(), 1);
    assert_eq!(contexts[0].name, "test-context");
    assert_eq!(contexts[0].cluster, "test-cluster");
    assert_eq!(contexts[0].user, "test-user");
    assert_eq!(contexts[0].namespace, Some("default".to_string()));
    assert!(contexts[0].is_current);
}

#[test]
fn build_context_list_flags_the_current_entry() {
    let entries = vec![
        entry("dev", "dev-cluster", Some("alice"), Some("team")),
        ContextEntry {
            name: "broken".to_string(),
            context: None,
        },
        entry("prod", "prod-cluster", None, None),
    ];
    let r = build_context_list(&entries, Some("prod".to_string()));
    assert_eq!(r.current_context, Some("prod".to_string()));
    assert_eq!(r.contexts.len(), 2);
    assert_eq!(r.contexts[0].name, "dev");
    assert_eq!(r.contexts[0].cluster, "dev-cluster");
    assert_eq!(r.contexts[0].user, "alice");
    assert_eq!(r.contexts[0].namespace, Some("team".to_string()));
    assert!(!r.contexts[0].is_current);
    assert_eq!(r.contexts[1].name, "prod");
    // A missing user is shown as the empty string.
    assert_eq!(r.contexts[1].user, "");
    assert_eq!(r.contexts[1].namespace, None);
    assert!(r.contexts[1].is_current);
}

#[test]
fn build_context_list_without_current_flags_nothing() {
    let entries = vec![entry("dev", "c", Some("u"), None)];
    let r = build_context_list(&entries, None);
    assert_eq!(r.current_context, None);
    assert_eq!(r.contexts.len(), 1);
    assert!(!r.contexts[0].is_current);
}

#[test]
fn context_switch_is_checked_by_name() {
    let entries = vec![entry("dev", "c", None, None), entry("prod", "c", None, None)];
    assert!(context_exists(&entries, &"dev".to_string()));
    assert!(!context_exists(&entries, &"staging".to_string()));
    assert_eq!(
        check_context_switch(&entries, &"prod".to_string()).unwrap(),
        "Context switched to: prod"
    );
    assert_eq!(
        check_context_switch(&entries, &"staging".to_string()).unwrap_err(),
        "Context 'staging' not found"
    );
}

#[test]
fn cached_snapshots_age_out_after_thirty_seconds() {
    let dev = "dev".to_string();
    let prod = "prod".to_string();
    assert!(cache_is_fresh(&dev, &dev, 0));
    assert!(cache_is_fresh(&dev, &dev, 29));
    assert!(!cache_is_fresh(&dev, &dev, 30));
    assert!(!cache_is_fresh(&dev, &prod, 0));
}

#[test]
fn cluster_info_carries_identity() {
    let info = ClusterInfo {
        name: "test-cluster".to_string(),
        server: "https://test-cluster.example.com".to_string(),
        version: None,
    };
    assert_eq!(info.name, "test-cluster");
    assert_eq!(info.server, "https://test-cluster.example.com");
    assert_eq!(info.version, None);
}

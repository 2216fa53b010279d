use kuboard::metrics::metrics_response_has_data;
use kuboard::ordering::sort_by_key;
use kuboard::ordering::sort_newest_first;
use kuboard::selector::owned_by;
use kuboard::selector::owned_indices;
use kuboard::selector::OwnerRef;
use kuboard::metrics::NodeMetadata;
use kuboard::metrics::NodeMetrics;
use kuboard::metrics::NodeUsage;
use kuboard::selector::labels_contain;
use kuboard::selector::matching_indices;
use kuboard::selector::selector_matches;

fn labels(pairs: &[(&str, &str)]) -> Vec<(String, String)> {
    pairs
        .iter()
        .map(|(k, v)| (k.to_string(), v.to_string()))
        .collect()
}

#[test]
fn a_selector_needs_every_pair_present() {
    let selector = labels(&[("app", "web"), ("tier", "front")]);
    let pod = labels(&[("tier", "front"), ("app", "web"), ("extra", "x")]);
    assert!(selector_matches(&selector, &pod));
    let other = labels(&[("app", "web"), ("tier", "back")]);
    assert!(!selector_matches(&selector, &other));
    let empty_selector = labels(&[]);
    assert!(selector_matches(&empty_selector, &other));
}

#[test]
fn label_values_must_match_exactly() {
    let pod = labels(&[("app", "web")]);
    assert!(labels_contain(&pod, &"app".to_string(), &"web".to_string()));
    assert!(!labels_contain(&pod, &"app".to_string(), &"api".to_string()));
    assert!(!labels_contain(&pod, &"tier".to_string(), &"web".to_string()));
}

#[test]
fn matching_indices_picks_the_selected_pods_in_order() {
    let selector = labels(&[("app", "web")]);
    let candidates = vec![
        Some(labels(&[("app", "web")])),
        Some(labels(&[("app", "api")])),
        None,
        Some(labels(&[("app", "web"), ("tier", "front")])),
    ];
    let picked = matching_indices(&selector, &candidates);
    assert_eq!(picked, vec![0, 3]);
}

fn owner(kind: &str, name: &str, controller: Option<bool>) -> OwnerRef {
    OwnerRef {
        kind: kind.to_string(),
        name: name.to_string(),
        controller,
    }
}

#[test]
fn ownership_follows_kind_name_and_controller() {
    let owners = Some(vec![
        owner("ReplicaSet", "web-abc", Some(true)),
        owner("CronJob", "nightly", None),
    ]);
    let kind = "CronJob".to_string();
    let name = "nightly".to_string();
    assert!(owned_by(&owners, &kind, &name, false));
    // The reference does not claim to control the child.
    assert!(!owned_by(&owners, &kind, &name, true));
    assert!(!owned_by(&owners, &"CronJob".to_string(), &"other".to_string(), false));
    assert!(!owned_by(&None, &kind, &name, false));
}

#[test]
fn owned_indices_picks_children_in_order() {
    let candidates = vec![
        Some(vec![owner("CronJob", "nightly", Some(true))]),
        Some(vec![owner("CronJob", "weekly", Some(true))]),
        None,
        Some(vec![owner("CronJob", "nightly", Some(true))]),
    ];
    let picked = owned_indices(&candidates, &"CronJob".to_string(), &"nightly".to_string(), true);
    assert_eq!(picked, vec![0, 3]);
}

#[test]
fn newest_first_sort_is_stable() {
    let keys: Vec<i64> = vec![5, 9, 5, 1, 9];
    let order = sort_newest_first(&keys);
    assert_eq!(order, vec![1, 4, 0, 2, 3]);
}

#[test]
fn key_sort_orders_by_name_then_keeps_ties_stable() {
    let keys: Vec<Vec<String>> = vec![
        vec!["web-2".to_string()],
        vec!["web-0".to_string()],
        vec!["web-10".to_string()],
        vec!["web-0".to_string()],
    ];
    let order = sort_by_key(&keys);
    // Lexicographic: "web-0" < "web-0" (tie, original order) < "web-10" < "web-2".
    assert_eq!(order, vec![1, 3, 2, 0]);
}

#[test]
fn key_sort_orders_by_node_then_name() {
    let keys: Vec<Vec<String>> = vec![
        vec!["node-b".to_string(), "pod-1".to_string()],
        vec!["node-a".to_string(), "pod-2".to_string()],
        vec!["node-a".to_string(), "pod-1".to_string()],
        vec!["".to_string(), "pod-9".to_string()],
    ];
    let order = sort_by_key(&keys);
    assert_eq!(order, vec![3, 2, 1, 0]);
}

#[test]
fn metrics_probe_accepts_only_data_bearing_responses() {
    assert!(metrics_response_has_data("{\"items\": []}"));
    assert!(metrics_response_has_data("nodes are here"));
    assert!(!metrics_response_has_data("{\"kind\": \"Status\"}"));
    assert!(!metrics_response_has_data(""));
}

#[test]
fn node_metrics_records_carry_plain_values() {
    let m = NodeMetrics {
        metadata: NodeMetadata {
            name: "node-1".to_string(),
            creation_timestamp: None,
        },
        timestamp: "2024-01-01T00:00:00Z".to_string(),
        window: "10s".to_string(),
        usage: NodeUsage {
            cpu: "150m".to_string(),
            memory: "129542Ki".to_string(),
        },
    };
    assert_eq!(m.metadata.name, "node-1");
    assert_eq!(m.usage.memory, "129542Ki");
}

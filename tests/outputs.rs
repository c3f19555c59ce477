use envie::{combine_outputs, merge_outputs, plan_output_queries, OrderedMap, QueryKind};

fn map_of(pairs: &[(&str, &str)]) -> OrderedMap<serde_json::Value> {
    let mut m = OrderedMap::new();
    for (k, v) in pairs {
        m.insert(k.to_string(), serde_json::Value::String(v.to_string()));
    }
    m
}

#[test]
fn test_merge_outputs() {
    let mut combined = OrderedMap::new();
    let new = map_of(&[("key1", "value1"), ("key2", "value2")]);
    merge_outputs(&mut combined, new);
    assert_eq!(combined.len(), 2);
    assert_eq!(combined.get("key1").unwrap(), "value1");
    assert_eq!(combined.get("key2").unwrap(), "value2");
}

#[test]
fn later_outputs_win_on_collision() {
    let merged = combine_outputs(vec![map_of(&[("x", "1")]), map_of(&[("x", "2"), ("y", "3")])]);
    assert_eq!(merged.len(), 2);
    assert_eq!(merged.get("x").unwrap(), "2");
    assert_eq!(merged.get("y").unwrap(), "3");
}

#[test]
fn combining_nothing_gives_an_empty_map() {
    let merged: OrderedMap<serde_json::Value> = combine_outputs(vec![]);
    assert_eq!(merged.len(), 0);
}

#[test]
fn shared_stable_pair_is_queried_once() {
    let deps = vec![
        "database/tables:sandbox".to_string(),
        "database/streams:sandbox".to_string(),
        "api/lambda:dev".to_string(),
        "networking/vpc:prod".to_string(),
        "database/tables:prod".to_string(),
        "broken".to_string(),
        "a:b:c".to_string(),
    ];
    let queries = plan_output_queries(&deps);
    let listed: Vec<(QueryKind, String, String)> =
        queries.iter().map(|q| (q.kind.clone(), q.component.clone(), q.environment.clone())).collect();
    assert_eq!(
        listed,
        vec![
            (QueryKind::Stable, "database".to_string(), "sandbox".to_string()),
            (QueryKind::Stable, "networking".to_string(), "prod".to_string()),
            (QueryKind::Stable, "database".to_string(), "prod".to_string()),
            (QueryKind::Ephemeral, "api/lambda".to_string(), "dev".to_string()),
        ]
    );
    assert_eq!(queries[0].directory(), "services/database/stable_deployments");
    assert_eq!(queries[3].directory(), "services/api/lambda/temp_deployments");
}

use webfetch::daemon::FetchDaemon;
use webfetch::fetchers::{FetchItem, FetchItemType, FoundItem, FoundItemContent};
use webfetch::saver::{Saver, SaverType, SinkTarget};
use webfetch::serializer::{serialize_all, SerType};

fn found(name: &str, text: &str) -> FoundItem {
    FoundItem {
        fetch_item: FetchItem {
            name: name.to_string(),
            path: "#x".to_string(),
            primary: true,
            item_type: FetchItemType::Text,
            related: vec![],
        },
        content: FoundItemContent::Str(text.to_string()),
        related: vec![],
    }
}

#[test]
fn test_failure_isolation_in_aggregate() {
    let with_failure = FetchDaemon::collect_fetched(vec![
        Some(vec![Some(found("a", "1"))]),
        None,
        Some(vec![Some(found("b", "2"))]),
    ]);
    let without_failed_target = FetchDaemon::collect_fetched(vec![
        Some(vec![Some(found("a", "1"))]),
        Some(vec![Some(found("b", "2"))]),
    ]);
    assert_eq!(with_failure, without_failed_target);
    assert_eq!(with_failure.len(), 2);
    assert_eq!(with_failure[0], vec![found("a", "1")]);
    assert_eq!(with_failure[1], vec![found("b", "2")]);
}

#[test]
fn test_hitless_batches_are_dropped() {
    let agg = FetchDaemon::collect_fetched(vec![
        Some(vec![None, None]),
        Some(vec![None, Some(found("kept", "v")), None]),
        None,
    ]);
    assert_eq!(agg, vec![vec![found("kept", "v")]]);
}

#[test]
fn test_empty_tick_aggregates_to_nothing() {
    assert_eq!(FetchDaemon::collect_fetched(vec![]), Vec::<Vec<FoundItem>>::new());
    assert_eq!(FetchDaemon::collect_fetched(vec![None, None]), Vec::<Vec<FoundItem>>::new());
}

#[test]
fn test_daemon_constructors() {
    let d = FetchDaemon::new(30, "targets".to_string(), Saver::new_default());
    assert_eq!(d.interval_secs, 30);
    assert_eq!(d.conf_path, "targets");
    let d = FetchDaemon::new_default(10, Saver::new_default());
    assert_eq!(d.conf_path, "configs");
}

#[test]
fn test_composite_sink_gets_identical_payloads() {
    let saver = Saver::new(
        SaverType::Multiple(vec![
            Saver::new(SaverType::Stdout, SerType::Plain),
            Saver::new(SaverType::File("/tmp/out".to_string()), SerType::Plain),
            Saver::new(
                SaverType::Multiple(vec![Saver::new(SaverType::Telegram, SerType::Plain)]),
                SerType::Plain,
            ),
        ]),
        SerType::Json,
    );
    let data = vec![vec![found("a", "1")], vec![found("b", "2")]];
    let data_again = vec![vec![found("a", "1")], vec![found("b", "2")]];
    let expected = serialize_all(data_again, SerType::Json);

    let plan = saver.deliveries(data);
    assert_eq!(plan.len(), 3);
    assert_eq!(plan[0].target, SinkTarget::Stdout);
    assert_eq!(plan[1].target, SinkTarget::File("/tmp/out".to_string()));
    assert_eq!(plan[2].target, SinkTarget::Telegram);
    for d in &plan {
        assert_eq!(d.payload, expected);
    }
}

#[test]
fn test_leaf_sink_delivers_serialized_payload() {
    let saver = Saver::new(SaverType::Stdout, SerType::Plain);
    let data = vec![vec![found("a", "1")]];
    let plan = saver.deliveries(data);
    assert_eq!(plan.len(), 1);
    assert_eq!(plan[0].payload, "a=1");
}

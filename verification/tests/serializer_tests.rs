use webfetch::fetchers::{FetchItem, FetchItemType, FoundItem, FoundItemContent};
use webfetch::serializer::{serialize_all, serialize_plain, SerType};
use webfetch::decoder::decode_structured;

fn create_test_data() -> Vec<Vec<FoundItem>> {
    let translations = FetchItem {
        name: "translations".to_string(),
        path: "#Content > div:nth-child(5)".to_string(),
        primary: false,
        item_type: FetchItemType::Class,
        related: vec![],
    };

    let item1 = FetchItem {
        name: "item1".to_string(),
        path: "#Content > div:nth-child(5) > strong".to_string(),
        primary: true,
        item_type: FetchItemType::Text,
        related: vec![translations.clone()],
    };

    let correct = vec![FoundItem {
        fetch_item: item1,
        content: FoundItemContent::Str("Translations:".to_string()),
        related: vec![Some(FoundItem {
            fetch_item: translations,
            content: FoundItemContent::Arr(vec!["boxed".to_string()]),
            related: vec![],
        })],
    }];
    let mut correct = vec![correct];
    correct.sort();
    correct
}

#[test]
fn test_serialize_plain() {
    let data = create_test_data();

    assert_eq!(
        serialize_all(data, SerType::Plain),
        "item1=Translations:: translations=boxed".to_string()
    )
}

#[test]
fn test_serialize_json() {
    let data = create_test_data();

    assert_eq!(
        serialize_all(data, SerType::Json),
        r#"[[{"name":"item1","content":"Translations:","related":[{"name":"translations","content":["boxed"],"related":[]}]}]]"#
    )
}

#[test]
fn test_plain_scenario_pair_with_child_group() {
    let translations = FetchItem {
        name: "translations".to_string(),
        path: "#t".to_string(),
        primary: false,
        item_type: FetchItemType::Class,
        related: vec![],
    };
    let item1 = FetchItem {
        name: "item1".to_string(),
        path: "#i".to_string(),
        primary: true,
        item_type: FetchItemType::Text,
        related: vec![translations.clone()],
    };
    let batch = vec![FoundItem {
        fetch_item: item1,
        content: FoundItemContent::Str("A".to_string()),
        related: vec![Some(FoundItem {
            fetch_item: translations,
            content: FoundItemContent::Arr(vec!["x".to_string(), "y".to_string()]),
            related: vec![],
        })],
    }];

    assert_eq!(serialize_all(vec![batch], SerType::Plain), "item1=A: translations=xy");
}

#[test]
fn test_structured_scenario_json_of_batch() {
    let translations = FetchItem {
        name: "translations".to_string(),
        path: "#t".to_string(),
        primary: false,
        item_type: FetchItemType::Class,
        related: vec![],
    };
    let item1 = FetchItem {
        name: "item1".to_string(),
        path: "#i".to_string(),
        primary: true,
        item_type: FetchItemType::Text,
        related: vec![translations.clone()],
    };
    let batch = vec![FoundItem {
        fetch_item: item1,
        content: FoundItemContent::Str("A".to_string()),
        related: vec![Some(FoundItem {
            fetch_item: translations,
            content: FoundItemContent::Arr(vec!["x".to_string(), "y".to_string()]),
            related: vec![],
        })],
    }];

    let batch_json =
        r#"[{"name":"item1","content":"A","related":[{"name":"translations","content":["x","y"],"related":[]}]}]"#;
    assert_eq!(
        serialize_all(vec![batch], SerType::Json),
        format!("[{}]", batch_json)
    );
}

#[test]
fn test_serialize_empty() {
    assert_eq!(serialize_all(vec![], SerType::Json), "[]");
    assert_eq!(serialize_all(vec![], SerType::Plain), "");
}

#[test]
fn test_serialize_plain_single_node() {
    let item = FetchItem {
        name: "k".to_string(),
        path: "#k".to_string(),
        primary: true,
        item_type: FetchItemType::Text,
        related: vec![],
    };
    let found = FoundItem {
        fetch_item: item,
        content: FoundItemContent::Str("v".to_string()),
        related: vec![],
    };
    assert_eq!(serialize_plain(&found), "k=v");
}

#[test]
fn test_plain_absent_child_renders_nothing() {
    let child = FetchItem {
        name: "c".to_string(),
        path: "#c".to_string(),
        primary: false,
        item_type: FetchItemType::Text,
        related: vec![],
    };
    let item = FetchItem {
        name: "a".to_string(),
        path: "#a".to_string(),
        primary: true,
        item_type: FetchItemType::Text,
        related: vec![child],
    };
    let found = FoundItem {
        fetch_item: item,
        content: FoundItemContent::Str("1".to_string()),
        related: vec![None],
    };
    // The child slot exists but the child is absent: the group is empty.
    assert_eq!(serialize_plain(&found), "a=1: ");
}

#[test]
fn test_json_escaping_matches_expected_bytes() {
    let item = FetchItem {
        name: "q".to_string(),
        path: "#q".to_string(),
        primary: true,
        item_type: FetchItemType::Text,
        related: vec![],
    };
    let found = FoundItem {
        fetch_item: item,
        content: FoundItemContent::Str("a\"b\\c\nd\te\u{1}f".to_string()),
        related: vec![],
    };
    assert_eq!(
        serialize_all(vec![vec![found]], SerType::Json),
        r#"[[{"name":"q","content":"a\"b\\c\nd\te\u0001f","related":[]}]]"#
    );
}

#[test]
fn test_structured_round_trip() {
    let data = create_test_data();
    let encoded = serialize_all(data, SerType::Json);
    let decoded = decode_structured(&encoded).expect("decode failed");

    assert_eq!(decoded.len(), 1);
    assert_eq!(decoded[0].len(), 1);
    let node = &decoded[0][0];
    assert_eq!(node.name, "item1");
    assert_eq!(node.content, FoundItemContent::Str("Translations:".to_string()));
    assert_eq!(node.related.len(), 1);
    let child = node.related[0].as_ref().expect("child absent");
    assert_eq!(child.name, "translations");
    assert_eq!(child.content, FoundItemContent::Arr(vec!["boxed".to_string()]));
    assert_eq!(child.related.len(), 0);
}

#[test]
fn test_round_trip_with_escapes_and_nulls() {
    let item = FetchItem {
        name: "weird \"name\"\n".to_string(),
        path: "#w".to_string(),
        primary: true,
        item_type: FetchItemType::Text,
        related: vec![],
    };
    let found = FoundItem {
        fetch_item: item.clone(),
        content: FoundItemContent::Str("x\u{2}y\\z".to_string()),
        related: vec![None, None],
    };
    let encoded = serialize_all(vec![vec![found]], SerType::Json);
    let decoded = decode_structured(&encoded).expect("decode failed");
    let node = &decoded[0][0];
    assert_eq!(node.name, "weird \"name\"\n");
    assert_eq!(node.content, FoundItemContent::Str("x\u{2}y\\z".to_string()));
    assert_eq!(node.related, vec![None, None]);
}

#[test]
fn test_decode_rejects_garbage() {
    assert!(decode_structured("nonsense").is_none());
    assert!(decode_structured("").is_none());
    assert!(decode_structured("[[]").is_none());
    assert!(decode_structured("[]x").is_none());
}

#[test]
fn test_plain_join_across_batches() {
    let mk = |name: &str, val: &str| FoundItem {
        fetch_item: FetchItem {
            name: name.to_string(),
            path: "#x".to_string(),
            primary: true,
            item_type: FetchItemType::Text,
            related: vec![],
        },
        content: FoundItemContent::Str(val.to_string()),
        related: vec![],
    };
    let data = vec![vec![mk("a", "1"), mk("b", "2")], vec![mk("c", "3")]];
    assert_eq!(serialize_all(data, SerType::Plain), "a=1 b=2 c=3");
}

#[test]
fn test_round_trip_empty_shapes() {
    assert_eq!(decode_structured("[]"), Some(vec![]));
    let one_empty_batch = serialize_all(vec![vec![]], SerType::Json);
    assert_eq!(one_empty_batch, "[[]]");
    let decoded = decode_structured(&one_empty_batch).expect("decode failed");
    assert_eq!(decoded.len(), 1);
    assert!(decoded[0].is_empty());
}

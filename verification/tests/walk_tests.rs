use webfetch::fetchers::{
    FetchError, FetchItem, FetchItemType, FetcherConfig, ClientType, FoundItemContent,
    SimpleFetcher,
};

fn fetcher(items: Vec<FetchItem>) -> SimpleFetcher {
    SimpleFetcher {
        config: FetcherConfig {
            client_type: ClientType::Simple,
            items,
            url: "http://example.invalid/".to_string(),
        },
    }
}

const DOC: &str = "<html><body><div><p class=\"y x\"><a>42</a></p></div></body></html>";

#[test]
fn test_text_scenario() {
    let price = FetchItem {
        name: "price".to_string(),
        path: "body > div > p > a".to_string(),
        primary: true,
        item_type: FetchItemType::Text,
        related: vec![],
    };
    let fetched = fetcher(vec![price.clone()]).fetch_doc(DOC).expect("spec is valid");
    assert_eq!(fetched.len(), 1);
    let node = fetched[0].as_ref().expect("selector should match");
    assert_eq!(node.fetch_item, price);
    assert_eq!(node.content, FoundItemContent::Str("42".to_string()));
    assert_eq!(node.related.len(), 0);
}

#[test]
fn test_class_tokens_keep_source_order() {
    let classes = FetchItem {
        name: "classes".to_string(),
        path: "p".to_string(),
        primary: true,
        item_type: FetchItemType::Class,
        related: vec![],
    };
    let fetched = fetcher(vec![classes]).fetch_doc(DOC).expect("spec is valid");
    let node = fetched[0].as_ref().expect("selector should match");
    // The class attribute is "y x": tokens come in source order.
    assert_eq!(
        node.content,
        FoundItemContent::Arr(vec!["y".to_string(), "x".to_string()])
    );
}

#[test]
fn test_structural_mirroring_when_all_match() {
    let child = FetchItem {
        name: "child".to_string(),
        path: "a".to_string(),
        primary: false,
        item_type: FetchItemType::Text,
        related: vec![],
    };
    let root = FetchItem {
        name: "root".to_string(),
        path: "p".to_string(),
        primary: true,
        item_type: FetchItemType::Text,
        related: vec![child],
    };
    let fetched = fetcher(vec![root.clone()]).fetch_doc(DOC).expect("spec is valid");
    assert_eq!(fetched.len(), 1);
    let node = fetched[0].as_ref().expect("root should match");
    assert_eq!(node.related.len(), root.related.len());
    let inner = node.related[0].as_ref().expect("child should match");
    assert_eq!(inner.content, FoundItemContent::Str("42".to_string()));
}

#[test]
fn test_children_select_whole_document_not_parent_scope() {
    // The child's selector matches an element that is *not* inside the
    // parent's match: selection is always global.
    let child = FetchItem {
        name: "elsewhere".to_string(),
        path: "p".to_string(),
        primary: false,
        item_type: FetchItemType::Text,
        related: vec![],
    };
    let root = FetchItem {
        name: "root".to_string(),
        path: "a".to_string(),
        primary: true,
        item_type: FetchItemType::Text,
        related: vec![child],
    };
    let fetched = fetcher(vec![root]).fetch_doc(DOC).expect("spec is valid");
    let node = fetched[0].as_ref().expect("root should match");
    let inner = node.related[0].as_ref().expect("child should match globally");
    assert_eq!(inner.content, FoundItemContent::Str("<a>42</a>".to_string()));
}

#[test]
fn test_root_miss_prunes_children() {
    let child_that_would_match = FetchItem {
        name: "child".to_string(),
        path: "a".to_string(),
        primary: false,
        item_type: FetchItemType::Text,
        related: vec![],
    };
    let root = FetchItem {
        name: "root".to_string(),
        path: "section.absent".to_string(),
        primary: true,
        item_type: FetchItemType::Text,
        related: vec![child_that_would_match],
    };
    let fetched = fetcher(vec![root]).fetch_doc(DOC).expect("spec is valid");
    // The root missed: its slot is None; the child was never evaluated.
    assert_eq!(fetched, vec![None]);
}

#[test]
fn test_non_primary_items_do_not_surface() {
    let secondary = FetchItem {
        name: "secondary".to_string(),
        path: "a".to_string(),
        primary: false,
        item_type: FetchItemType::Text,
        related: vec![],
    };
    let primary = FetchItem {
        name: "primary".to_string(),
        path: "a".to_string(),
        primary: true,
        item_type: FetchItemType::Text,
        related: vec![],
    };
    let fetched = fetcher(vec![secondary, primary.clone()])
        .fetch_doc(DOC)
        .expect("spec is valid");
    assert_eq!(fetched.len(), 1);
    assert_eq!(fetched[0].as_ref().unwrap().fetch_item, primary);
}

#[test]
fn test_malformed_selector_fails_validation() {
    let bad = FetchItem {
        name: "bad".to_string(),
        path: ":::not a selector:::".to_string(),
        primary: true,
        item_type: FetchItemType::Text,
        related: vec![],
    };
    let got = fetcher(vec![bad]).fetch_doc(DOC);
    assert_eq!(got, Err(FetchError::SpecValidation));
}

#[test]
fn test_malformed_selector_in_child_fails_validation() {
    let bad_child = FetchItem {
        name: "bad".to_string(),
        path: ":::".to_string(),
        primary: false,
        item_type: FetchItemType::Text,
        related: vec![],
    };
    let root = FetchItem {
        name: "root".to_string(),
        path: "p".to_string(),
        primary: true,
        item_type: FetchItemType::Text,
        related: vec![bad_child],
    };
    let got = fetcher(vec![root]).fetch_doc(DOC);
    assert_eq!(got, Err(FetchError::SpecValidation));
}

#[test]
fn test_class_item_without_class_attr_is_empty_list() {
    let doc = "<html><body><span>plain</span></body></html>";
    let item = FetchItem {
        name: "c".to_string(),
        path: "span".to_string(),
        primary: true,
        item_type: FetchItemType::Class,
        related: vec![],
    };
    let fetched = fetcher(vec![item]).fetch_doc(doc).expect("spec is valid");
    let node = fetched[0].as_ref().expect("selector should match");
    assert_eq!(node.content, FoundItemContent::Arr(vec![]));
}

#[test]
fn test_class_tokens_ignore_extra_whitespace() {
    let doc = "<html><body><i class=\"  a \t b  \">t</i></body></html>";
    let item = FetchItem {
        name: "c".to_string(),
        path: "i".to_string(),
        primary: true,
        item_type: FetchItemType::Class,
        related: vec![],
    };
    let fetched = fetcher(vec![item]).fetch_doc(doc).expect("spec is valid");
    let node = fetched[0].as_ref().expect("selector should match");
    assert_eq!(
        node.content,
        FoundItemContent::Arr(vec!["a".to_string(), "b".to_string()])
    );
}

#[test]
fn test_config_validate() {
    let good = fetcher(vec![FetchItem {
        name: "x".to_string(),
        path: "p > a".to_string(),
        primary: true,
        item_type: FetchItemType::Text,
        related: vec![],
    }]);
    assert!(good.config.validate());
    let bad = fetcher(vec![FetchItem {
        name: "x".to_string(),
        path: ":::".to_string(),
        primary: true,
        item_type: FetchItemType::Text,
        related: vec![],
    }]);
    assert!(!bad.config.validate());
}

//! Tests of the tree model: extraction and targeted removal.

use bookmark_checker::Bookmark;
use bookmark_checker::Field;
use bookmark_checker::Node;
use bookmark_checker::TargetSet;
use bookmark_checker::extract_bookmarks;
use bookmark_checker::remove_targets;
use bookmark_checker::tree::collect_nodes;

fn field(key: &str, value: Node) -> Field {
    Field { key: key.to_string(), value }
}

fn leaf(name: &str, url: &str) -> Node {
    Node::Object(vec![
        field("type", Node::Str("url".to_string())),
        field("name", Node::Str(name.to_string())),
        field("url", Node::Str(url.to_string())),
    ])
}

fn folder(children: Vec<Node>) -> Node {
    Node::Object(vec![
        field("type", Node::Str("folder".to_string())),
        field("children", Node::Array(children)),
    ])
}

fn sample_tree() -> Node {
    // The shape of a bookmark store: roots -> bookmark_bar -> children.
    Node::Object(vec![field(
        "roots",
        Node::Object(vec![field(
            "bookmark_bar",
            Node::Object(vec![field(
                "children",
                Node::Array(vec![
                    leaf("Example", "https://example.com"),
                    folder(vec![leaf("Nested", "https://nested.example.com")]),
                ]),
            )]),
        )]),
    )])
}

#[test]
fn extracts_nested_nodes_in_preorder() {
    let bookmarks = extract_bookmarks(&sample_tree());
    assert_eq!(
        bookmarks,
        vec![
            Bookmark {
                name: "Example".to_string(),
                url: "https://example.com".to_string(),
            },
            Bookmark {
                name: "Nested".to_string(),
                url: "https://nested.example.com".to_string(),
            },
        ]
    );
}

#[test]
fn collects_from_arrays() {
    let data = Node::Array(vec![leaf("Array Example", "https://array.example.com")]);

    let mut collected = Vec::new();
    collect_nodes(&data, &mut collected);
    assert_eq!(
        collected,
        vec![Bookmark {
            name: "Array Example".to_string(),
            url: "https://array.example.com".to_string(),
        }]
    );
}

#[test]
fn extract_visits_children_before_other_fields() {
    // `zzz` sorts after `children`, but the `children` entries still
    // come first in extraction order; the leaf's own entry leads.
    let root = Node::Object(vec![
        field("type", Node::Str("url".to_string())),
        field("name", Node::Str("Self".to_string())),
        field("url", Node::Str("https://self.example".to_string())),
        field("aaa", leaf("Other", "https://other.example")),
        field("children", Node::Array(vec![leaf("Child", "https://child.example")])),
    ]);
    let bookmarks = extract_bookmarks(&root);
    let names: Vec<&str> = bookmarks.iter().map(|b| b.name.as_str()).collect();
    assert_eq!(names, vec!["Self", "Child", "Other"]);
}

#[test]
fn extract_emits_nothing_without_url_nodes() {
    let root = folder(vec![folder(vec![]), Node::Str("stray".to_string())]);
    assert!(extract_bookmarks(&root).is_empty());
    assert!(extract_bookmarks(&Node::Other("17".to_string())).is_empty());
}

#[test]
fn remove_excises_only_targeted_leaves() {
    let mut tree = sample_tree();
    let mut targets = TargetSet::new();
    targets.insert("https://nested.example.com".to_string());

    let removed = remove_targets(&mut tree, &targets);
    assert_eq!(removed, 1);

    let left = extract_bookmarks(&tree);
    assert_eq!(left.len(), 1);
    assert_eq!(left[0].url, "https://example.com");
}

#[test]
fn remove_is_idempotent() {
    let mut tree = sample_tree();
    let mut targets = TargetSet::new();
    targets.insert("https://example.com".to_string());

    assert_eq!(remove_targets(&mut tree, &targets), 1);
    let after_first = extract_bookmarks(&tree);

    assert_eq!(remove_targets(&mut tree, &targets), 0);
    assert_eq!(extract_bookmarks(&tree), after_first);
}

#[test]
fn remove_with_disjoint_targets_is_a_noop() {
    let mut tree = sample_tree();
    let untouched = sample_tree();
    let mut targets = TargetSet::new();
    targets.insert("https://absent.example".to_string());

    assert_eq!(remove_targets(&mut tree, &targets), 0);
    assert_eq!(tree, untouched);
}

#[test]
fn remove_preserves_order_of_survivors() {
    let mut tree = folder(vec![
        leaf("One", "https://one.example"),
        leaf("Two", "https://two.example"),
        leaf("Three", "https://three.example"),
        leaf("Four", "https://four.example"),
    ]);
    let mut targets = TargetSet::new();
    targets.insert("https://two.example".to_string());
    targets.insert("https://four.example".to_string());

    assert_eq!(remove_targets(&mut tree, &targets), 2);
    let names: Vec<String> = extract_bookmarks(&tree).into_iter().map(|b| b.name).collect();
    assert_eq!(names, vec!["One".to_string(), "Three".to_string()]);
}

#[test]
fn remove_counts_matches_at_any_depth() {
    let mut tree = folder(vec![
        leaf("Top", "https://gone.example"),
        folder(vec![
            leaf("Inner", "https://gone.example"),
            folder(vec![leaf("Deep", "https://also-gone.example")]),
        ]),
        leaf("Kept", "https://kept.example"),
    ]);
    let mut targets = TargetSet::new();
    targets.insert("https://gone.example".to_string());
    targets.insert("https://also-gone.example".to_string());

    assert_eq!(remove_targets(&mut tree, &targets), 3);
    let left = extract_bookmarks(&tree);
    assert_eq!(left.len(), 1);
    assert_eq!(left[0].name, "Kept");
}

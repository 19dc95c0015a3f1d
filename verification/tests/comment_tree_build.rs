use threadline::comment_tree::{
    decode_kind, unfold, CommentData, Envelope, CommentNode, CommentTree, Kind, MoreData, NestedThing, Thing,
};
use threadline::errors::StructuralError;

fn comment(name: &str, parent: &str) -> Thing {
    Thing::Comment(CommentData {
        name: name.to_string(),
        parent: parent.to_string(),
        body: format!("body of {}", name),
        author: "someone".to_string(),
        score: 1,
    })
}

fn more(parent: &str, children: &[&str]) -> Thing {
    Thing::More(MoreData {
        parent: parent.to_string(),
        children: children.iter().map(|s| s.to_string()).collect(),
        count: children.len() as u64,
    })
}

fn label(node: &CommentNode) -> String {
    match &node.thing {
        Thing::Comment(c) => format!("{}@{}", c.name, node.depth),
        Thing::More(m) => format!("more({})@{}", m.children.join(","), node.depth),
    }
}

fn labels(nodes: &[CommentNode]) -> Vec<String> {
    nodes.iter().map(label).collect()
}

#[test]
fn parent_child_and_stub_scenario() {
    let tree = CommentTree::build(vec![comment("A", "root"), comment("B", "A"), more("A", &["C", "D"])])
        .ok()
        .unwrap();
    assert_eq!(tree.root, "root");
    assert_eq!(tree.len(), 3);
    assert_eq!(tree.top_level(), vec![0]);
    let kids = tree.children_of(0);
    assert_eq!(kids, vec![1, 2]);
    match &tree.nodes[kids[0]].thing {
        Thing::Comment(c) => assert_eq!(c.name, "B"),
        _ => panic!("expected comment B"),
    }
    match &tree.nodes[kids[1]].thing {
        Thing::More(m) => {
            assert_eq!(m.children, vec!["C", "D"]);
            assert_eq!(m.count, 2);
            assert_eq!(m.parent, "A");
        }
        _ => panic!("expected a stub"),
    }
    assert!(tree.children_of(1).is_empty());
    assert!(tree.children_of(2).is_empty());
    assert_eq!(labels(&tree.nodes), vec!["A@0", "B@1", "more(C,D)@1"]);
}

#[test]
fn document_order_is_kept() {
    let items = vec![
        comment("A", "root"),
        comment("B", "A"),
        comment("C", "B"),
        more("B", &["X"]),
        comment("D", "A"),
        comment("E", "root"),
        more("root", &["Y", "Z"]),
    ];
    let tree = CommentTree::build(items).ok().unwrap();
    assert_eq!(
        labels(&tree.nodes),
        vec!["A@0", "B@1", "C@2", "more(X)@2", "D@1", "E@0", "more(Y,Z)@0"]
    );
    assert_eq!(tree.top_level(), vec![0, 5, 6]);
    assert_eq!(tree.children_of(0), vec![1, 4]);
    assert_eq!(tree.children_of(1), vec![2, 3]);
    let flat = tree.flatten();
    assert_eq!(flat.len(), 7);
}

#[test]
fn child_after_a_later_sibling_of_its_parent_goes_under_its_parent() {
    let tree = CommentTree::build(vec![comment("A", "root"), comment("B", "root"), comment("C", "A")])
        .ok()
        .unwrap();
    assert_eq!(labels(&tree.nodes), vec!["A@0", "C@1", "B@0"]);
    assert_eq!(tree.top_level(), vec![0, 2]);
    assert_eq!(tree.children_of(0), vec![1]);
}

#[test]
fn child_before_its_parent_is_tried_again_after_the_walk() {
    let tree = CommentTree::build(vec![comment("B", "A"), comment("A", "root"), comment("C", "A")])
        .ok()
        .unwrap();
    assert_eq!(labels(&tree.nodes), vec!["A@0", "C@1", "B@1"]);
}

#[test]
fn missing_parent_is_an_error() {
    let r = CommentTree::build(vec![comment("A", "root"), comment("B", "Z")]);
    assert!(matches!(r, Err(StructuralError::UnresolvedParent)));
}

#[test]
fn pending_items_get_one_more_turn_in_order() {
    let r = CommentTree::build(vec![comment("C", "B"), comment("B", "A"), comment("A", "root")]);
    assert!(matches!(r, Err(StructuralError::UnresolvedParent)));
}

#[test]
fn stub_cannot_be_a_parent() {
    let r = CommentTree::build(vec![more("root", &["A"]), comment("B", "A")]);
    assert!(matches!(r, Err(StructuralError::UnresolvedParent)));
}

#[test]
fn empty_payload_gives_an_empty_tree() {
    let tree = CommentTree::build(vec![]).ok().unwrap();
    assert_eq!(tree.len(), 0);
    assert!(tree.top_level().is_empty());
}

#[test]
fn another_root_can_be_named() {
    let tree = CommentTree::build_under(
        "t3_abc".to_string(),
        vec![comment("t1_1", "t3_abc"), comment("t1_2", "t1_1")],
    )
    .ok()
    .unwrap();
    assert_eq!(labels(&tree.nodes), vec!["t1_1@0", "t1_2@1"]);
    let r = CommentTree::build_under("t3_abc".to_string(), vec![comment("t1_1", "root")]);
    assert!(matches!(r, Err(StructuralError::UnresolvedParent)));
}

#[test]
fn expanding_twice_gives_the_same_nodes() {
    let stub = MoreData { parent: "A".to_string(), children: vec!["C".to_string(), "D".to_string()], count: 2 };
    let fetched = || vec![comment("C", "A"), comment("E", "C"), comment("D", "A")];
    let one = stub.expand(fetched()).ok().unwrap();
    let two = stub.expand(fetched()).ok().unwrap();
    assert_eq!(labels(&one), vec!["C@0", "E@1", "D@0"]);
    assert_eq!(labels(&one), labels(&two));
    assert_eq!(stub.children_param(), "C,D");
    let call = stub.expand_request("t3_abc");
    assert_eq!(call.url, "/api/morechildren");
    assert_eq!(call.body, "api_type=json&link_id=t3_abc&children=C,D");
}

#[test]
fn expansion_with_a_stranger_fails() {
    let stub = MoreData { parent: "A".to_string(), children: vec!["C".to_string()], count: 1 };
    assert!(matches!(stub.expand(vec![comment("C", "Q")]), Err(StructuralError::UnresolvedParent)));
}

#[test]
fn children_param_joins_with_commas() {
    let none = MoreData { parent: "A".to_string(), children: vec![], count: 0 };
    assert_eq!(none.children_param(), "");
    let one = MoreData { parent: "A".to_string(), children: vec!["x".to_string()], count: 1 };
    assert_eq!(one.children_param(), "x");
    let three = MoreData {
        parent: "A".to_string(),
        children: vec!["x".to_string(), "y".to_string(), "z".to_string()],
        count: 9,
    };
    assert_eq!(three.children_param(), "x,y,z");
}

#[test]
fn kinds_are_a_closed_set() {
    assert_eq!(decode_kind("t1"), Ok(Kind::Comment));
    assert_eq!(decode_kind("t2"), Ok(Kind::Account));
    assert_eq!(decode_kind("t3"), Ok(Kind::Submission));
    assert_eq!(decode_kind("t4"), Ok(Kind::Message));
    assert_eq!(decode_kind("t5"), Ok(Kind::Subreddit));
    assert_eq!(decode_kind("more"), Ok(Kind::More));
    assert_eq!(decode_kind("Listing"), Ok(Kind::Listing));
    assert_eq!(decode_kind("t9"), Err(StructuralError::UnknownKind));
    assert_eq!(decode_kind(""), Err(StructuralError::UnknownKind));
    assert_eq!(decode_kind("T1"), Err(StructuralError::UnknownKind));
    assert_eq!(Envelope { kind: "more".to_string(), data: 0u8 }.kind(), Ok(Kind::More));
    assert_eq!(Envelope { kind: "less".to_string(), data: 0u8 }.kind(), Err(StructuralError::UnknownKind));
    assert_eq!(Envelope { kind: "t1".to_string(), data: 0u8 }.comment_kind(), Ok(Kind::Comment));
    assert_eq!(Envelope { kind: "more".to_string(), data: 0u8 }.comment_kind(), Ok(Kind::More));
    assert_eq!(Envelope { kind: "t3".to_string(), data: 0u8 }.comment_kind(), Err(StructuralError::UnknownKind));
    assert_eq!(Envelope { kind: "".to_string(), data: 0u8 }.comment_kind(), Err(StructuralError::UnknownKind));
}

#[test]
fn comments_and_stubs_are_told_apart() {
    assert!(comment("A", "root").is_comment());
    assert!(!more("root", &[]).is_comment());
}

fn nested(name: &str, parent: &str, replies: Vec<NestedThing>) -> NestedThing {
    NestedThing::Comment {
        data: CommentData {
            name: name.to_string(),
            parent: parent.to_string(),
            body: String::new(),
            author: "someone".to_string(),
            score: 0,
        },
        replies,
    }
}

#[test]
fn inline_replies_are_unfolded_behind_their_comment() {
    let stub = NestedThing::More(MoreData { parent: "B".to_string(), children: vec!["X".to_string()], count: 1 });
    let items = vec![
        nested("A", "root", vec![nested("B", "A", vec![nested("C", "B", vec![]), stub]), nested("D", "A", vec![])]),
        nested("E", "root", vec![]),
    ];
    let tree = CommentTree::build_nested("root".to_string(), items).ok().unwrap();
    assert_eq!(labels(&tree.nodes), vec!["A@0", "B@1", "C@2", "more(X)@2", "D@1", "E@0"]);
    let r = CommentTree::build_nested(
        "root".to_string(),
        vec![nested("A", "root", vec![nested("B", "Q", vec![])])],
    );
    assert!(matches!(r, Err(StructuralError::UnresolvedParent)));
    let flat = unfold(vec![nested("A", "t3_x", vec![nested("B", "A", vec![])]), nested("C", "t3_x", vec![])]);
    let order: Vec<String> = flat
        .iter()
        .map(|t| match t {
            Thing::Comment(c) => c.name.clone(),
            Thing::More(_) => "more".to_string(),
        })
        .collect();
    assert_eq!(order, vec!["A", "B", "C"]);
    assert!(unfold(vec![]).is_empty());
}

#[test]
fn splice_puts_the_expansion_where_the_stub_stood() {
    let mut tree = CommentTree::build(vec![
        comment("A", "root"),
        comment("B", "A"),
        more("A", &["C", "D"]),
        comment("F", "A"),
        comment("G", "root"),
    ])
    .ok()
    .unwrap();
    assert_eq!(labels(&tree.nodes), vec!["A@0", "B@1", "more(C,D)@1", "F@1", "G@0"]);
    let r = tree.splice(2, vec![comment("C", "A"), comment("E", "C"), comment("D", "A")]);
    assert!(r.is_ok());
    assert_eq!(labels(&tree.nodes), vec!["A@0", "B@1", "C@1", "E@2", "D@1", "F@1", "G@0"]);
    assert_eq!(tree.children_of(0), vec![1, 2, 4, 5]);
    assert_eq!(tree.top_level(), vec![0, 6]);
}

#[test]
fn splice_that_fails_changes_nothing() {
    let mut tree = CommentTree::build(vec![comment("A", "root"), more("A", &["C"])]).ok().unwrap();
    let r = tree.splice(1, vec![comment("C", "nobody")]);
    assert_eq!(r, Err(StructuralError::UnresolvedParent));
    assert_eq!(labels(&tree.nodes), vec!["A@0", "more(C)@1"]);
    assert!(tree.splice(1, vec![]).is_ok());
    assert_eq!(labels(&tree.nodes), vec!["A@0"]);
}

#[test]
fn top_level_stub_expands_at_the_top() {
    let mut tree = CommentTree::build(vec![comment("A", "root"), more("root", &["H"]), comment("G", "root")])
        .ok()
        .unwrap();
    assert!(tree.splice(1, vec![comment("H", "root"), comment("I", "H")]).is_ok());
    assert_eq!(labels(&tree.nodes), vec!["A@0", "H@0", "I@1", "G@0"]);
}

#[test]
fn well_formedness_can_be_asked() {
    let mut tree = CommentTree::build(vec![comment("A", "root"), comment("B", "A"), more("B", &["C"])])
        .ok()
        .unwrap();
    assert!(tree.is_well_formed());
    tree.nodes[1].depth = 2;
    assert!(!tree.is_well_formed());
    tree.nodes[1].depth = 1;
    assert!(tree.is_well_formed());
    tree.nodes.swap(0, 1);
    assert!(!tree.is_well_formed());
    tree.nodes.swap(0, 1);
    tree.root = "elsewhere".to_string();
    assert!(!tree.is_well_formed());
    assert!(CommentTree::build(vec![]).ok().unwrap().is_well_formed());
}

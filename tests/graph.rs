use serde_graph::graph::GraphError;
use serde_graph::record::{Attrs, Color, DataType, Fields};
use serde_graph::registry::{Collection, Item};
use serde_graph::resolve::{resolve, Exceptions, Link, Resolution, Skip};

fn attrs(ser: bool, de: bool) -> Attrs {
    Attrs { derive_serialize: ser, derive_deserialize: de, serde: false, serde_from: false, serde_into: false }
}

fn strukt(name: &str, public: bool, ser: bool, de: bool, refs: &[&str]) -> Item {
    Item::Struct {
        ident: name.to_string(),
        public,
        attrs: attrs(ser, de),
        fields: Fields { serde_attr: false, types: refs.iter().map(|r| vec![r.to_string()]).collect() },
    }
}

fn registry(files: Vec<(&str, Vec<Item>)>) -> Collection {
    let mut c = Collection::new();
    for (prefix, items) in files {
        c.add_items(items, prefix);
    }
    c
}

fn target(r: Resolution) -> String {
    match r {
        Resolution::Target(t) => t,
        other => panic!("expected a target, got {:?}", other),
    }
}

#[test]
fn end_to_end_green_pair() {
    let c = registry(vec![(
        "pkg",
        vec![strukt("Foo", true, true, true, &["pkg::Bar"]), strukt("Bar", true, true, true, &[])],
    )]);
    let nodes = c.build_graph(&Exceptions::standard(), false).unwrap();
    assert_eq!(nodes.len(), 2);
    assert_eq!(nodes[0].id, "pkg::Bar");
    assert_eq!(nodes[0].color, Color::Green);
    assert!(nodes[0].strong.is_empty() && nodes[0].weak.is_empty());
    assert_eq!(nodes[1].id, "pkg::Foo");
    assert_eq!(nodes[1].color, Color::Green);
    assert_eq!(nodes[1].kind, DataType::Struct);
    assert_eq!(nodes[1].strong, vec!["pkg::Bar".to_string()]);
    assert!(nodes[1].weak.is_empty());
}

#[test]
fn end_to_end_unresolved_reference() {
    let c = registry(vec![("x", vec![strukt("Thing", true, true, false, &["Id"])])]);
    match c.build_graph(&Exceptions::standard(), false) {
        Err(GraphError::Unresolved(v)) => {
            assert_eq!(v.len(), 1);
            assert_eq!(v[0].source, "x::Thing");
            assert_eq!(v[0].reference, "Id");
        }
        other => panic!("expected an unresolved reference, got {:?}", other),
    }
}

#[test]
fn unresolved_references_are_all_collected() {
    let c = registry(vec![(
        "x",
        vec![strukt("A", true, true, true, &["Nope", "Gone"]), strukt("B", true, false, false, &["Missing"])],
    )]);
    match c.build_graph(&Exceptions::standard(), false) {
        Err(GraphError::Unresolved(v)) => {
            let pairs: Vec<(String, String)> = v.into_iter().map(|u| (u.source, u.reference)).collect();
            assert_eq!(
                pairs,
                vec![
                    ("x::A".to_string(), "Nope".to_string()),
                    ("x::A".to_string(), "Gone".to_string()),
                    ("x::B".to_string(), "Missing".to_string()),
                ]
            );
        }
        other => panic!("expected unresolved references, got {:?}", other),
    }
}

#[test]
fn private_types_are_not_resolved() {
    let c = registry(vec![("x", vec![strukt("Hidden", false, true, true, &["Nowhere"])])]);
    assert!(c.build_graph(&Exceptions::standard(), false).unwrap().is_empty());
}

#[test]
fn resolver_prefers_exact_match() {
    let c = registry(vec![
        ("net", vec![strukt("Address", true, true, true, &[])]),
        ("net/address", vec![strukt("Address", true, true, true, &[])]),
    ]);
    let r = resolve(&c, &Exceptions::standard(), "config::P2PConfig", "net::Address");
    assert_eq!(target(r), "net::Address");
}

#[test]
fn resolver_prefers_same_namespace_over_sub_module() {
    let c = registry(vec![
        ("block", vec![strukt("Header", true, true, true, &[])]),
        ("block/header", vec![strukt("Header", true, true, true, &[])]),
    ]);
    let r = resolve(&c, &Exceptions::standard(), "block::Block", "Header");
    assert_eq!(target(r), "block::Header");
}

#[test]
fn resolver_naming_rules() {
    let c = registry(vec![
        ("timeout", vec![strukt("Timeout", true, true, true, &[])]),
        ("vote/power", vec![strukt("Power", true, true, true, &[])]),
        ("channel/id", vec![strukt("Id", true, true, true, &[])]),
        ("block/height", vec![strukt("Height", true, true, true, &[])]),
    ]);
    let ex = Exceptions::standard();
    assert_eq!(target(resolve(&c, &ex, "config::P2PConfig", "Timeout")), "timeout::Timeout");
    assert_eq!(target(resolve(&c, &ex, "validator::Info", "vote::Power")), "vote/power::Power");
    assert_eq!(target(resolve(&c, &ex, "channel::Channel", "Id")), "channel/id::Id");
    assert_eq!(target(resolve(&c, &ex, "block/commit::Commit", "Height")), "block/height::Height");
}

#[test]
fn resolver_domain_rules() {
    let c = registry(vec![
        ("abci/tag", vec![strukt("Key", true, true, true, &[]), strukt("Tag", true, true, true, &[])]),
        ("abci/transaction", vec![strukt("Data", true, true, true, &[])]),
    ]);
    let ex = Exceptions::standard();
    assert_eq!(target(resolve(&c, &ex, "config::TxIndexConfig", "tag::Key")), "abci/tag::Key");
    assert_eq!(target(resolve(&c, &ex, "block::Block", "transaction::Data")), "abci/transaction::Data");
    assert_eq!(target(resolve(&c, &ex, "abci/responses::Event", "Tag")), "abci/tag::Tag");
}

#[test]
fn resolver_named_links() {
    let c = registry(vec![
        ("chain/id", vec![strukt("Id", true, true, true, &[])]),
        ("channel", vec![strukt("Channels", true, true, true, &[])]),
        ("block/parts", vec![strukt("Header", true, true, true, &[])]),
    ]);
    let ex = Exceptions::standard();
    assert_eq!(target(resolve(&c, &ex, "vote/canonical_vote::CanonicalVote", "ChainId")), "chain/id::Id");
    assert_eq!(target(resolve(&c, &ex, "node/info::Info", "Channels")), "channel::Channels");
    assert_eq!(target(resolve(&c, &ex, "block/id::Id", "PartSetHeader")), "block/parts::Header");
    assert!(matches!(resolve(&c, &ex, "other::Thing", "PartSetHeader"), Resolution::Unresolved));
}

#[test]
fn resolver_skips_listed_references() {
    let c = registry(vec![]);
    let ex = Exceptions::standard();
    assert!(matches!(resolve(&c, &ex, "genesis::Genesis", "AppState"), Resolution::NoEdge));
    assert!(matches!(resolve(&c, &ex, "time::Time", "Utc"), Resolution::NoEdge));
    assert!(matches!(resolve(&c, &ex, "time::Time", "AppState"), Resolution::Unresolved));
}

#[test]
fn custom_tables() {
    let c = registry(vec![("lib/core", vec![strukt("Thing", true, true, true, &[])])]);
    let ex = Exceptions {
        domain: "lib".to_string(),
        links: vec![Link { source: None, reference: "Alias".to_string(), target: "lib/core::Thing".to_string() }],
        skips: vec![Skip { source: "a::B".to_string(), reference: "Foreign".to_string() }],
    };
    assert_eq!(target(resolve(&c, &ex, "a::B", "core::Thing")), "lib/core::Thing");
    assert_eq!(target(resolve(&c, &ex, "a::B", "Alias")), "lib/core::Thing");
    assert!(matches!(resolve(&c, &ex, "a::B", "Foreign"), Resolution::NoEdge));
    assert!(matches!(resolve(&c, &Exceptions::empty(), "a::B", "Foreign"), Resolution::Unresolved));
}

#[test]
fn weak_edges_from_non_green() {
    let c = registry(vec![(
        "pkg",
        vec![strukt("Foo", true, true, false, &["Bar"]), strukt("Bar", true, true, true, &[])],
    )]);
    let nodes = c.build_graph(&Exceptions::standard(), false).unwrap();
    assert_eq!(nodes[1].color, Color::GreenGradient);
    assert_eq!(nodes[1].strong, vec!["pkg::Bar".to_string()]);
    let c = registry(vec![(
        "pkg",
        vec![strukt("Foo", true, false, false, &["Bar"]), strukt("Bar", true, true, true, &[])],
    )]);
    let nodes = c.build_graph(&Exceptions::standard(), false).unwrap();
    assert_eq!(nodes[1].color, Color::White);
    assert!(nodes[1].strong.is_empty());
    assert_eq!(nodes[1].weak, vec!["pkg::Bar".to_string()]);
}

#[test]
fn graph_independent_of_entry_order() {
    let files = || {
        vec![
            ("b", vec![strukt("Y", true, true, true, &["a::X"]), strukt("Z", true, false, false, &["Y"])]),
            ("a", vec![strukt("X", true, true, true, &[])]),
        ]
    };
    let mut reversed = files();
    reversed.reverse();
    let one = registry(files()).parse_to_csv(&Exceptions::standard(), false, true).unwrap();
    let two = registry(reversed).parse_to_csv(&Exceptions::standard(), false, true).unwrap();
    let again = registry(files()).parse_to_csv(&Exceptions::standard(), false, true).unwrap();
    assert_eq!(one, two);
    assert_eq!(one, again);
    assert_eq!(
        one,
        "a::X,rectangle,green,\"\",\"\"\nb::Y,rectangle,green,\"a::X\",\"\"\nb::Z,rectangle,white,\"\",\"b::Y\"\n"
    );
}

#[test]
fn csv_json_view_and_header() {
    let c = registry(vec![(
        "pkg",
        vec![
            strukt("Foo", true, true, true, &["pkg::Bar"]),
            strukt("Bar", true, true, true, &[]),
            strukt("Plain", true, false, false, &["Foo"]),
        ],
    )]);
    let ex = Exceptions::standard();
    let json = c.parse_to_csv(&ex, true, true).unwrap();
    assert_eq!(json, "pkg::Bar,rectangle,green,\"\",\"\"\npkg::Foo,rectangle,green,\"pkg::Bar\",\"\"\n");
    let full = c.parse_to_csv(&ex, false, false).unwrap();
    assert!(full.starts_with(serde_graph::csv::HEADER));
    assert!(full.ends_with("pkg::Plain,rectangle,white,\"\",\"pkg::Foo\"\n"));
}

#[test]
fn impl_blocks_merge_in_any_order() {
    let ser_impl = |name: &str, tr: &str| Item::Impl { trait_name: Some(tr.to_string()), self_name: Some(name.to_string()) };
    let c = registry(vec![(
        "m",
        vec![
            ser_impl("T", "Serialize"),
            ser_impl("T", "Deserialize"),
            strukt("T", true, false, false, &[]),
            ser_impl("U", "Serialize"),
            ser_impl("V", "Display"),
            Item::Other,
        ],
    )]);
    let t = c.get("m::T").unwrap();
    assert_eq!(t.kind, DataType::Struct);
    assert!(t.serializer && t.deserializer);
    assert_eq!(t.get_color(), Color::Yellow);
    let u = c.get("m::U").unwrap();
    assert_eq!(u.kind, DataType::Unknown);
    assert_eq!(u.get_color(), Color::YellowGradient);
    assert!(c.get("m::V").is_none());
    assert_eq!(c.len(), 2);
}

#[test]
fn serde_conversion_attrs() {
    let mut c = Collection::new();
    let a = Attrs { derive_serialize: true, derive_deserialize: true, serde: true, serde_from: true, serde_into: false };
    c.add_items(
        vec![Item::Enum {
            ident: "E".to_string(),
            public: true,
            attrs: a,
            variants: vec![
                Fields { serde_attr: false, types: vec![vec!["A".to_string()]] },
                Fields { serde_attr: true, types: vec![vec!["B".to_string(), "A".to_string()]] },
            ],
        }],
        "m",
    );
    let e = c.get("m::E").unwrap();
    assert_eq!(e.kind, DataType::Enum);
    assert_eq!(e.get_color(), Color::BlueGradient);
    assert!(e.serde_custom_field);
    assert_eq!(e.fields, vec!["A".to_string(), "B".to_string()]);
    let no_serde = Attrs { derive_serialize: false, derive_deserialize: false, serde: false, serde_from: true, serde_into: true };
    c.add_items(vec![Item::Struct { ident: "S".to_string(), public: true, attrs: no_serde, fields: Fields { serde_attr: false, types: vec![] } }], "m");
    assert_eq!(c.get("m::S").unwrap().get_color(), Color::White);
}

#[test]
fn edge_targets_are_sorted_and_unique() {
    let c = registry(vec![(
        "pkg",
        vec![
            strukt("Foo", true, true, true, &["pkg::Z", "pkg::A", "Z"]),
            strukt("Z", true, true, true, &[]),
            strukt("A", true, true, true, &[]),
            strukt("W", true, false, false, &["pkg::Z", "pkg::A"]),
        ],
    )]);
    let nodes = c.build_graph(&Exceptions::standard(), false).unwrap();
    let foo = nodes.iter().find(|n| n.id == "pkg::Foo").unwrap();
    assert_eq!(foo.strong, vec!["pkg::A".to_string(), "pkg::Z".to_string()]);
    let w = nodes.iter().find(|n| n.id == "pkg::W").unwrap();
    assert_eq!(w.weak, vec!["pkg::A".to_string(), "pkg::Z".to_string()]);
    let ids: Vec<&str> = nodes.iter().map(|n| n.id.as_str()).collect();
    assert_eq!(ids, vec!["pkg::A", "pkg::Foo", "pkg::W", "pkg::Z"]);
}

#[test]
fn json_view_skips_white_types_before_resolving() {
    let c = registry(vec![(
        "x",
        vec![strukt("Plain", true, false, false, &["Nowhere"]), strukt("Json", true, true, true, &[])],
    )]);
    let ex = Exceptions::standard();
    assert!(matches!(c.build_graph(&ex, false), Err(GraphError::Unresolved(_))));
    let nodes = c.build_graph(&ex, true).unwrap();
    assert_eq!(nodes.len(), 1);
    assert_eq!(nodes[0].id, "x::Json");
    assert_eq!(c.parse_to_csv(&ex, true, true).unwrap(), "x::Json,rectangle,green,\"\",\"\"\n");
    assert!(c.parse_to_csv(&ex, false, true).is_err());
}

#[test]
fn no_public_node_of_unknown_kind() {
    let c = registry(vec![(
        "m",
        vec![
            Item::Impl { trait_name: Some("Serialize".to_string()), self_name: Some("T".to_string()) },
            strukt("T", true, true, false, &[]),
            Item::Impl { trait_name: Some("Deserialize".to_string()), self_name: Some("T".to_string()) },
            Item::Impl { trait_name: Some("Serialize".to_string()), self_name: Some("Only".to_string()) },
        ],
    )]);
    let nodes = c.build_graph(&Exceptions::standard(), false).unwrap();
    assert_eq!(nodes.len(), 1);
    assert_eq!(nodes[0].kind, DataType::Struct);
    assert_eq!(nodes[0].color, Color::Red);
}

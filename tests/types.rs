use serde_graph::types::{
    get_idents_from_paths, get_idents_from_types, is_ident_present, is_ident_with_token_present,
    attrs_of, fields_of, AttrShape, FieldShape, Segment, SegmentArgs, TypeShape,
};

fn seg(name: &str) -> Segment {
    Segment { ident: name.to_string(), args: SegmentArgs::Bare }
}

fn generic(name: &str, args: Vec<TypeShape>) -> Segment {
    Segment { ident: name.to_string(), args: SegmentArgs::Angle(args) }
}

fn path(names: &[&str]) -> TypeShape {
    TypeShape::Path(names.iter().map(|n| seg(n)).collect())
}

fn strings(v: &[&str]) -> Vec<String> {
    v.iter().map(|s| s.to_string()).collect()
}

#[test]
fn wrappers_are_stripped_from_nested_types() {
    let t = TypeShape::Path(vec![generic(
        "Option",
        vec![TypeShape::Path(vec![generic("Vec", vec![path(&["block", "Header"])])])],
    )]);
    assert_eq!(get_idents_from_types(&t), strings(&["block::Header", "block::Header"]));
    let bytes = TypeShape::Path(vec![generic("Vec", vec![path(&["u8"])])]);
    assert!(get_idents_from_types(&bytes).is_empty());
    assert!(get_idents_from_types(&path(&["std", "time", "Duration"])).is_empty());
}

#[test]
fn names_of_maps_tuples_and_references() {
    let map = TypeShape::Path(vec![generic("HashMap", vec![path(&["K"]), TypeShape::Other, path(&["V"])])]);
    assert_eq!(get_idents_from_types(&map), strings(&["K", "V", "HashMap"]));
    let tuple = TypeShape::Tuple(vec![path(&["A"]), TypeShape::Elem(Box::new(path(&["B"])))]);
    assert_eq!(get_idents_from_types(&tuple), strings(&["A", "B"]));
    let f = TypeShape::BareFn(Some(Box::new(path(&["Out"]))));
    assert_eq!(get_idents_from_types(&f), strings(&["Out"]));
    assert!(get_idents_from_types(&TypeShape::BareFn(None)).is_empty());
}

#[test]
fn every_segment_repeats_the_path_name() {
    let segs = vec![seg("a"), generic("B", vec![path(&["C"])])];
    assert_eq!(get_idents_from_paths(&segs), strings(&["a::B", "C", "a::B"]));
    let closure = vec![Segment { ident: "Fn".to_string(), args: SegmentArgs::Paren(Some(Box::new(path(&["R"])))) }];
    assert_eq!(get_idents_from_paths(&closure), strings(&["R", "Fn"]));
}

fn attr(name: &str, groups: &[&[&str]]) -> AttrShape {
    AttrShape { path: vec![seg(name)], groups: groups.iter().map(|g| strings(g)).collect() }
}

#[test]
fn attribute_checks() {
    let attrs = vec![attr("derive", &[&["Debug", "Serialize"]]), attr("serde", &[&["try_from"]])];
    assert!(is_ident_present(&attrs, "serde"));
    assert!(!is_ident_present(&attrs, "repr"));
    assert!(is_ident_with_token_present(&attrs, "derive", "Serialize"));
    assert!(!is_ident_with_token_present(&attrs, "derive", "Deserialize"));
    assert!(is_ident_with_token_present(&attrs, "serde", "try_from"));
    assert!(!is_ident_with_token_present(&attrs, "serde", "Serialize"));
    assert!(!is_ident_with_token_present(&Vec::new(), "derive", "Serialize"));
}

#[test]
fn attribute_facts() {
    let a = attrs_of(&vec![attr("derive", &[&["Serialize"]]), attr("serde", &[&["try_from", "into"]])]);
    assert!(a.derive_serialize && !a.derive_deserialize && a.serde && a.serde_from && a.serde_into);
    let b = attrs_of(&vec![attr("derive", &[&["Deserialize"]]), attr("serde", &[&["from"]])]);
    assert!(!b.derive_serialize && b.derive_deserialize && b.serde && b.serde_from && !b.serde_into);
    let c = attrs_of(&vec![attr("derive", &[&["Debug"]])]);
    assert!(!c.derive_serialize && !c.serde && !c.serde_from && !c.serde_into);
}

#[test]
fn field_facts() {
    let fs = vec![
        FieldShape { attrs: vec![], ty: path(&["Id"]) },
        FieldShape { attrs: vec![attr("serde", &[&["with"]])], ty: TypeShape::Path(vec![generic("Vec", vec![path(&["Tx"])])]) },
    ];
    let f = fields_of(&fs);
    assert!(f.serde_attr);
    assert_eq!(f.types, vec![strings(&["Id"]), strings(&["Tx"])]);
    let plain = fields_of(&vec![FieldShape { attrs: vec![attr("doc", &[])], ty: path(&["u8"]) }]);
    assert!(!plain.serde_attr);
    assert_eq!(plain.types, vec![Vec::<String>::new()]);
}

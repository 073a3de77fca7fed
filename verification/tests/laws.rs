use class_diagram::class_map::ClassMap;
use class_diagram::discover_types::discover_types;
use class_diagram::init_classes::init_classes;
use class_diagram::model::{Class, Connection, Relationship, Visibility};
use class_diagram::relationships::find_relationships;
use class_diagram::source::{parse_rust_source, SourceError};
use class_diagram::syntax::{
    FieldSyntax, FileSyntax, FnArgSyntax, ImplItemSyntax, ImplTraitSyntax, ItemSyntax,
    SignatureSyntax, TokenNode, VisibilitySyntax,
};

fn st(x: &str) -> String {
    x.to_string()
}

fn tokens_of(text: &str) -> Vec<String> {
    text.split(' ').map(|t| t.to_string()).collect()
}

fn plain_field(name: &str, ty: &str) -> FieldSyntax {
    let text = format!("{} : {}", name, ty);
    FieldSyntax {
        visibility: VisibilitySyntax::Inherited,
        ident: Some(st(name)),
        ty: st(ty),
        ty_tokens: tokens_of(ty),
        tokens: tokens_of(&text),
        text,
    }
}

fn method(name: &str, param: &str) -> ImplItemSyntax {
    ImplItemSyntax::Fn {
        visibility: VisibilitySyntax::Public,
        sig: SignatureSyntax {
            ident: st(name),
            inputs: vec![
                FnArgSyntax::Receiver,
                FnArgSyntax::Typed { text: st(param), tokens: tokens_of(param) },
            ],
            output: None,
        },
    }
}

/// A depot holding crates, with an inherent impl, a trait impl and a free function.
fn depot_items(with_extras: bool) -> Vec<ItemSyntax> {
    let mut items = vec![];
    if with_extras {
        items.push(ItemSyntax::Other);
    }
    items.push(ItemSyntax::Struct {
        visibility: VisibilitySyntax::Public,
        ident: st("Depot"),
        fields: vec![plain_field("crates", "Vec < Crate >")],
    });
    items.push(ItemSyntax::Struct {
        visibility: VisibilitySyntax::Public,
        ident: st("Crate"),
        fields: vec![plain_field("weight", "u32")],
    });
    if with_extras {
        items.push(ItemSyntax::Enum {
            visibility: VisibilitySyntax::Public,
            ident: st("Depot"),
            variants: vec![st("Crate")],
        });
    }
    items.push(ItemSyntax::Trait {
        visibility: VisibilitySyntax::Public,
        ident: st("Stack"),
        items: vec![],
    });
    items.push(ItemSyntax::Impl {
        trait_: ImplTraitSyntax::Inherent,
        self_ty: st("Depot"),
        items: vec![method("store", "c : Crate"), method("load", "d : Depot")],
    });
    items.push(ItemSyntax::Impl { trait_: ImplTraitSyntax::Ident(st("Stack")), self_ty: st("Crate"), items: vec![] });
    items.push(ItemSyntax::Fn {
        visibility: VisibilitySyntax::Inherited,
        sig: SignatureSyntax { ident: st("ship"), inputs: vec![], output: None },
        body: vec![TokenNode::Group(vec![TokenNode::Leaf(st("Crate"))])],
    });
    if with_extras {
        items.push(ItemSyntax::Other);
    }
    items
}

fn depot_file() -> FileSyntax {
    FileSyntax { items: depot_items(false) }
}

fn connection_list(c: &Class) -> Vec<(String, String, String, Relationship)> {
    c.connections
        .iter()
        .map(|(k, v)| (k.clone(), v.name_a.clone(), v.name_b.clone(), v.relationship))
        .collect()
}

#[test]
fn second_call_keeps_connections_and_repeats_methods() {
    let file = depot_file();
    let (names, mut classes) = init_classes(&file);
    let map = ClassMap::from_names(&names);
    find_relationships(&file, &map, &mut classes);
    let once: Vec<_> = classes.iter().map(connection_list).collect();
    let methods_once: Vec<String> = classes[0].functions.iter().map(|f| f.name.clone()).collect();
    assert_eq!(methods_once, vec![st("store"), st("load")]);
    find_relationships(&file, &map, &mut classes);
    let twice: Vec<_> = classes.iter().map(connection_list).collect();
    assert_eq!(once, twice);
    let methods_twice: Vec<String> = classes[0].functions.iter().map(|f| f.name.clone()).collect();
    assert_eq!(methods_twice, vec![st("store"), st("load"), st("store"), st("load")]);
}

#[test]
fn enums_and_other_items_change_no_relationship() {
    let file = depot_file();
    let more = FileSyntax { items: depot_items(true) };
    let (names, classes) = init_classes(&file);
    let map = ClassMap::from_names(&names);
    let mut a = classes.clone();
    let mut b = classes;
    find_relationships(&file, &map, &mut a);
    find_relationships(&more, &map, &mut b);
    let la: Vec<_> = a.iter().map(connection_list).collect();
    let lb: Vec<_> = b.iter().map(connection_list).collect();
    assert_eq!(la, lb);
    assert_eq!(a[0].functions.len(), b[0].functions.len());
}

#[test]
fn declared_types_are_class_names_without_functions() {
    let file = depot_file();
    let (names, _) = init_classes(&file);
    assert_eq!(names, vec![st("Depot"), st("Crate"), st("Stack"), st("ship")]);
    assert_eq!(discover_types(&file), vec![st("Depot"), st("Crate"), st("Stack")]);
}

#[test]
fn changed_connection_becomes_inheritance_arrow() {
    let file = depot_file();
    let (names, mut classes) = init_classes(&file);
    let map = ClassMap::from_names(&names);
    classes[2].add_connection(st("Crate"), Connection::new(st("x"), st("y"), Relationship::Dependency));
    find_relationships(&file, &map, &mut classes);
    assert_eq!(
        connection_list(&classes[2]),
        vec![(st("Crate"), st("Crate"), st("Stack"), Relationship::Inheritance)]
    );
}

#[test]
fn adds_under_distinct_keys_commute_as_maps() {
    let mut c1 = Class::new(Visibility::Public, st("A"));
    let mut c2 = Class::new(Visibility::Public, st("A"));
    let x1 = || Connection::new(st("A"), st("B"), Relationship::Association);
    let x2 = || Connection::new(st("A"), st("C"), Relationship::Dependency);
    c1.add_connection(st("B"), x1());
    c1.add_connection(st("C"), x2());
    c2.add_connection(st("C"), x2());
    c2.add_connection(st("B"), x1());
    let mut l1 = connection_list(&c1);
    let mut l2 = connection_list(&c2);
    assert_ne!(l1, l2);
    l1.sort_by(|a, b| a.0.cmp(&b.0));
    l2.sort_by(|a, b| a.0.cmp(&b.0));
    assert_eq!(l1, l2);
}

#[test]
fn parse_gives_the_tree_of_the_text() {
    let code = "struct A { x: u32 }\nfn f() {}\nenum E { V }";
    let file = parse_rust_source(code).unwrap();
    assert_eq!(file.items.len(), 3);
    match &file.items[0] {
        syn::Item::Struct(s) => assert_eq!(s.ident.to_string(), "A"),
        _ => panic!("first item is not the struct"),
    }
}

#[test]
fn parse_error_is_the_parser_message() {
    let code = "struct {";
    let expected = match syn::parse_file(code) {
        Err(e) => e.to_string(),
        Ok(_) => panic!("syn accepted invalid code"),
    };
    match parse_rust_source(code) {
        Err(SourceError::Syntax(m)) => assert_eq!(m, expected),
        Ok(_) => panic!("accepted invalid code"),
    }
}

#[test]
fn second_call_keeps_connections_with_any_map() {
    let imp = |tr: &str| ItemSyntax::Impl {
        trait_: ImplTraitSyntax::Ident(st(tr)),
        self_ty: st("A"),
        items: vec![],
    };
    let file = FileSyntax { items: vec![imp("T1"), imp("T2")] };
    let mut classes = vec![Class::new(Visibility::Public, st("Holder"))];
    let mut map = ClassMap::new();
    map.insert(st("T1"), 0);
    map.insert(st("T2"), 0);
    find_relationships(&file, &map, &mut classes);
    let once = connection_list(&classes[0]);
    assert_eq!(once, vec![(st("A"), st("A"), st("T2"), Relationship::Inheritance)]);
    find_relationships(&file, &map, &mut classes);
    assert_eq!(connection_list(&classes[0]), once);
}

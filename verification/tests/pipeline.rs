use class_diagram::class_map::ClassMap;
use class_diagram::diagram::build_diagram;
use class_diagram::discover_types::discover_types;
use class_diagram::init_classes::init_classes;
use class_diagram::mermaid::render_diagram;
use class_diagram::model::{Relationship, Visibility};
use class_diagram::process_file::process_file;
use class_diagram::relationships::find_relationships;
use class_diagram::settings::DiagramSettings;
use class_diagram::syntax::{
    FieldSyntax, FileSyntax, FnArgSyntax, ImplItemSyntax, ImplTraitSyntax, ItemSyntax,
    SignatureSyntax, TokenNode, TraitItemSyntax, VisibilitySyntax,
};

fn s(x: &str) -> String {
    x.to_string()
}

fn toks(text: &str) -> Vec<String> {
    text.split(' ').map(|t| t.to_string()).collect()
}

/// A named field `name : ty`, written with `pub` when `public`.
fn field(public: bool, name: &str, ty: &str) -> FieldSyntax {
    let text = if public { format!("pub {} : {}", name, ty) } else { format!("{} : {}", name, ty) };
    FieldSyntax {
        visibility: if public { VisibilitySyntax::Public } else { VisibilitySyntax::Inherited },
        ident: Some(s(name)),
        ty: s(ty),
        ty_tokens: toks(ty),
        tokens: toks(&text),
        text,
    }
}

fn typed(text: &str) -> FnArgSyntax {
    FnArgSyntax::Typed { text: s(text), tokens: toks(text) }
}

fn leaf(t: &str) -> TokenNode {
    TokenNode::Leaf(s(t))
}

/// The sample file: people living in houses of a town.
fn town_file() -> FileSyntax {
    FileSyntax {
        items: vec![
            ItemSyntax::Struct {
                visibility: VisibilitySyntax::Public,
                ident: s("Person"),
                fields: vec![
                    field(true, "name", "String"),
                    field(true, "age", "u32"),
                    field(true, "house", "House"),
                ],
            },
            ItemSyntax::Struct {
                visibility: VisibilitySyntax::Public,
                ident: s("Town"),
                fields: vec![
                    field(true, "houses", "Vec < House >"),
                    field(true, "residents", "Vec < Person >"),
                ],
            },
            ItemSyntax::Struct {
                visibility: VisibilitySyntax::Inherited,
                ident: s("House"),
                fields: vec![field(true, "addr", "String"), field(true, "color", "Color")],
            },
            ItemSyntax::Enum {
                visibility: VisibilitySyntax::Public,
                ident: s("Color"),
                variants: vec![s("Red"), s("Green"), s("Blue")],
            },
            ItemSyntax::Trait {
                visibility: VisibilitySyntax::Public,
                ident: s("Greet"),
                items: vec![TraitItemSyntax::Fn(SignatureSyntax {
                    ident: s("greet"),
                    inputs: vec![FnArgSyntax::Receiver],
                    output: Some(s("String")),
                })],
            },
        ],
    }
}

/// A shop file with impl blocks and a free function.
fn shop_file() -> FileSyntax {
    FileSyntax {
        items: vec![
            ItemSyntax::Struct {
                visibility: VisibilitySyntax::Public,
                ident: s("Shop"),
                fields: vec![field(false, "items", "Vec < Item >")],
            },
            ItemSyntax::Struct {
                visibility: VisibilitySyntax::Public,
                ident: s("Item"),
                fields: vec![field(false, "price", "u32")],
            },
            ItemSyntax::Trait {
                visibility: VisibilitySyntax::Public,
                ident: s("Priced"),
                items: vec![TraitItemSyntax::Fn(SignatureSyntax {
                    ident: s("price"),
                    inputs: vec![FnArgSyntax::Receiver, typed("shop : Shop")],
                    output: Some(s("u32")),
                })],
            },
            ItemSyntax::Impl {
                trait_: ImplTraitSyntax::Ident(s("Priced")),
                self_ty: s("Item"),
                items: vec![ImplItemSyntax::Fn {
                    visibility: VisibilitySyntax::Inherited,
                    sig: SignatureSyntax {
                        ident: s("price"),
                        inputs: vec![FnArgSyntax::Receiver, typed("shop : Shop")],
                        output: Some(s("u32")),
                    },
                }],
            },
            ItemSyntax::Impl {
                trait_: ImplTraitSyntax::Inherent,
                self_ty: s("Shop"),
                items: vec![
                    ImplItemSyntax::Fn {
                        visibility: VisibilitySyntax::Public,
                        sig: SignatureSyntax {
                            ident: s("add"),
                            inputs: vec![FnArgSyntax::Receiver, typed("item : Item")],
                            output: None,
                        },
                    },
                    ImplItemSyntax::Other,
                    ImplItemSyntax::Fn {
                        visibility: VisibilitySyntax::Inherited,
                        sig: SignatureSyntax {
                            ident: s("total"),
                            inputs: vec![FnArgSyntax::Receiver],
                            output: Some(s("u32")),
                        },
                    },
                ],
            },
            ItemSyntax::Fn {
                visibility: VisibilitySyntax::Inherited,
                sig: SignatureSyntax {
                    ident: s("checkout"),
                    inputs: vec![typed("shop : Shop")],
                    output: Some(s("u32")),
                },
                body: vec![TokenNode::Group(vec![
                    leaf("let"),
                    leaf("i"),
                    leaf("="),
                    leaf("Item"),
                    TokenNode::Group(vec![leaf("price"), leaf(":"), leaf("1")]),
                    leaf(";"),
                    leaf("i"),
                    leaf("."),
                    leaf("price"),
                ])],
            },
            ItemSyntax::Other,
        ],
    }
}

const HIDE: DiagramSettings = DiagramSettings { show_parameters: false };
const SHOW: DiagramSettings = DiagramSettings { show_parameters: true };

#[test]
fn init_classes_of_town() {
    let (names, classes) = init_classes(&town_file());
    assert_eq!(names, vec![s("Person"), s("Town"), s("House"), s("Color"), s("Greet")]);
    assert_eq!(classes.len(), 5);
    assert_eq!(classes[2].visibility, Visibility::Private);
    assert_eq!(classes[0].fields.len(), 3);
    assert_eq!(classes[0].fields[2].name, "house");
    assert_eq!(classes[0].fields[2].type_string, "House");
    assert_eq!(classes[3].fields[1].name, "Green");
    assert_eq!(classes[3].fields[1].type_string, "");
    assert_eq!(classes[3].fields[1].visibility, Visibility::Public);
    assert_eq!(classes[4].functions.len(), 1);
    assert_eq!(classes[4].functions[0].params, "");
    assert_eq!(classes[4].functions[0].return_type, "String");
    for c in &classes {
        assert!(c.connections.is_empty());
    }
}

#[test]
fn init_classes_of_free_function() {
    let file = FileSyntax {
        items: vec![ItemSyntax::Fn {
            visibility: VisibilitySyntax::Restricted(s("pub (crate)")),
            sig: SignatureSyntax { ident: s("run"), inputs: vec![], output: None },
            body: vec![],
        }],
    };
    let (names, classes) = init_classes(&file);
    assert_eq!(names, vec![s("run")]);
    assert_eq!(classes[0].visibility, Visibility::Internal);
    assert_eq!(classes[0].fields.len(), 1);
    assert_eq!(classes[0].fields[0].name, "pub (crate)");
    assert_eq!(classes[0].fields[0].visibility, Visibility::Internal);
}

#[test]
fn relationships_of_town() {
    let file = town_file();
    let (names, mut classes) = init_classes(&file);
    let map = ClassMap::from_names(&names);
    find_relationships(&file, &map, &mut classes);
    assert_eq!(classes[0].connections.len(), 1);
    assert_eq!(classes[0].connections[0].0, "House");
    assert_eq!(classes[0].connections[0].1.name_a, "Person");
    assert_eq!(classes[0].connections[0].1.relationship, Relationship::Association);
    assert_eq!(classes[1].connections.len(), 2);
    assert_eq!(classes[2].connections.len(), 1);
    assert!(classes[3].connections.is_empty());
    assert!(classes[4].connections.is_empty());
}

#[test]
fn town_diagram() {
    let expected = "classDiagram\n\n\
class Person {\n+name: String\n+age: u32\n+house: House\n}\nPerson --> House\n\
class Town {\n+houses: Vec < House >\n+residents: Vec < Person >\n}\nTown --> House\nTown --> Person\n\
class House {\n+addr: String\n+color: Color\n}\nHouse --> Color\n\
class Color {\n+Red: \n+Green: \n+Blue: \n}\n\
class Greet {\n+greet() String\n}\n";
    assert_eq!(build_diagram(&vec![town_file()], &HIDE), expected);
}

#[test]
fn relationships_of_shop() {
    let file = shop_file();
    let (names, mut classes) = init_classes(&file);
    assert_eq!(names, vec![s("Shop"), s("Item"), s("Priced"), s("checkout")]);
    let map = ClassMap::from_names(&names);
    let before: Vec<(String, usize, usize)> =
        classes.iter().map(|c| (c.name.clone(), c.fields.len(), c.functions.len())).collect();
    find_relationships(&file, &map, &mut classes);
    for (c, (name, n_fields, n_functions)) in classes.iter().zip(before.iter()) {
        assert_eq!(&c.name, name);
        assert_eq!(c.fields.len(), *n_fields);
        assert!(c.functions.len() >= *n_functions);
    }
    // Shop: its field, then the trait parameter keyed by its own name.
    assert_eq!(classes[0].connections.len(), 2);
    assert_eq!(classes[0].connections[1].0, "Shop");
    assert_eq!(classes[0].connections[1].1.name_a, "Priced");
    assert_eq!(classes[0].functions.len(), 2);
    assert_eq!(classes[0].functions[0].params, "item : Item");
    // Item: used in the body of `checkout`.
    assert_eq!(classes[1].connections.len(), 1);
    assert_eq!(classes[1].connections[0].0, "checkout");
    // Priced: implemented by Item.
    assert_eq!(classes[2].connections.len(), 1);
    assert_eq!(classes[2].connections[0].1.relationship, Relationship::Inheritance);
}

#[test]
fn shop_diagram() {
    let expected = "classDiagram\n\n\
class Shop {\n-items: Vec < Item >\n+add() \n-total() u32\n}\nShop --> Item\nPriced ..> Shop\n\
class Item {\n-price: u32\n}\ncheckout ..> Item\n\
class Priced {\n+price() u32\n}\nItem <|-- Priced\n\
class checkout {\n-: \n}\n";
    assert_eq!(build_diagram(&vec![shop_file()], &HIDE), expected);
    let shown = build_diagram(&vec![shop_file()], &SHOW);
    assert!(shown.contains("+add(item : Item) \n"));
    assert!(shown.contains("+price(shop : Shop) u32\n"));
}

#[test]
fn impl_of_a_trait_replaces_earlier_implementer_entry() {
    let trait_item = ItemSyntax::Trait {
        visibility: VisibilitySyntax::Public,
        ident: s("T"),
        items: vec![],
    };
    let imp = |ty: &str| ItemSyntax::Impl {
        trait_: ImplTraitSyntax::Ident(s("T")),
        self_ty: s(ty),
        items: vec![],
    };
    let file = FileSyntax { items: vec![trait_item, imp("A"), imp("B"), imp("A")] };
    let (names, mut classes) = init_classes(&file);
    let map = ClassMap::from_names(&names);
    find_relationships(&file, &map, &mut classes);
    assert_eq!(classes[0].connections.len(), 2);
    assert_eq!(classes[0].connections[0].0, "A");
    assert_eq!(classes[0].connections[1].0, "B");
}

#[test]
fn classes_from_several_files() {
    let d = build_diagram(&vec![town_file(), shop_file()], &HIDE);
    assert!(d.starts_with("classDiagram\n\nclass Person {\n"));
    assert!(d.ends_with("class checkout {\n-: \n}\n"));
    let classes = d.matches("class ").count();
    assert_eq!(classes, 9);
    assert_eq!(render_diagram(&vec![], &HIDE), "classDiagram\n\n");
}

#[test]
fn discover_types_of_town_and_shop() {
    assert_eq!(
        discover_types(&town_file()),
        vec![s("Person"), s("Town"), s("House"), s("Color"), s("Greet")]
    );
    assert_eq!(discover_types(&shop_file()), vec![s("Shop"), s("Item"), s("Priced")]);
}

#[test]
fn process_file_of_town() {
    let file = town_file();
    let defined = discover_types(&file);
    let mut diagram = s("start\n");
    process_file(&file, &mut diagram, &defined);
    let expected = "start\n\
class Person {\n  +pub name : String \n  +pub age : u32 \n  +pub house : House \n}\n\nPerson <|-- House\n\n\
class Town {\n  +pub houses : Vec < House > \n  +pub residents : Vec < Person > \n}\n\nTown <|-- House\nTown <|-- Person\n\n\
class House {\n  +pub addr : String \n  +pub color : Color \n}\n\nHouse <|-- Color\n\n\
class Color {\n  +Red\n  +Green\n  +Blue\n}\n\n\
class Greet {\n  +greet() -> String\n}\n\n";
    assert_eq!(diagram, expected);
}

#[test]
fn process_file_of_shop() {
    let file = shop_file();
    let defined = discover_types(&file);
    let mut diagram = String::new();
    process_file(&file, &mut diagram, &defined);
    let expected = "class Shop {\n  +items : Vec < Item > \n}\n\nShop <|-- Item\n\n\
class Item {\n  +price : u32 \n}\n\n\
class Priced {\n  +price(shop : Shop) -> u32\n}\n\n";
    assert_eq!(diagram, expected);
}

use class_diagram::class_map::ClassMap;
use class_diagram::model::{Class, Connection, Field, Function, Relationship, Visibility};
use class_diagram::settings::Settings;
use class_diagram::syntax::VisibilitySyntax;

fn s(x: &str) -> String {
    x.to_string()
}

#[test]
fn class_new_is_empty() {
    let c = Class::new(Visibility::Public, s("Person"));
    assert_eq!(c.name, "Person");
    assert_eq!(c.visibility, Visibility::Public);
    assert!(c.fields.is_empty());
    assert!(c.functions.is_empty());
    assert!(c.connections.is_empty());
}

#[test]
fn constructors_keep_their_arguments() {
    let f = Field::new(Visibility::Private, s("age"), s("u32"));
    assert_eq!((f.visibility, f.name.as_str(), f.type_string.as_str()), (Visibility::Private, "age", "u32"));
    let g = Function::new(Visibility::Internal, s("greet"), s("x : u8"), s("String"));
    assert_eq!(g.visibility, Visibility::Internal);
    assert_eq!(g.name, "greet");
    assert_eq!(g.params, "x : u8");
    assert_eq!(g.return_type, "String");
    let c = Connection::new(s("A"), s("B"), Relationship::Dependency);
    assert_eq!((c.name_a.as_str(), c.name_b.as_str(), c.relationship), ("A", "B", Relationship::Dependency));
}

#[test]
fn add_connection_keeps_the_first() {
    let mut c = Class::new(Visibility::Public, s("A"));
    c.add_connection(s("B"), Connection::new(s("A"), s("B"), Relationship::Association));
    c.add_connection(s("B"), Connection::new(s("X"), s("Y"), Relationship::Dependency));
    c.add_connection(s("C"), Connection::new(s("A"), s("C"), Relationship::Dependency));
    assert_eq!(c.connections.len(), 2);
    assert_eq!(c.connections[0].0, "B");
    assert_eq!(c.connections[0].1.name_b, "B");
    assert_eq!(c.connections[0].1.relationship, Relationship::Association);
    assert_eq!(c.connections[1].0, "C");
}

#[test]
fn insert_connection_replaces() {
    let mut c = Class::new(Visibility::Public, s("Greet"));
    c.insert_connection(s("P"), Connection::new(s("P"), s("Greet"), Relationship::Inheritance));
    c.insert_connection(s("Q"), Connection::new(s("Q"), s("Greet"), Relationship::Inheritance));
    c.insert_connection(s("P"), Connection::new(s("P2"), s("Greet"), Relationship::Dependency));
    assert_eq!(c.connections.len(), 2);
    assert_eq!(c.connections[0].0, "P");
    assert_eq!(c.connections[0].1.name_a, "P2");
    assert_eq!(c.connections[0].1.relationship, Relationship::Dependency);
    assert_eq!(c.connections[1].1.name_a, "Q");
}

#[test]
fn from_vis_cases() {
    assert_eq!(Visibility::from_vis(&VisibilitySyntax::Public), Visibility::Public);
    assert_eq!(Visibility::from_vis(&VisibilitySyntax::Inherited), Visibility::Private);
    assert_eq!(Visibility::from_vis(&VisibilitySyntax::Restricted(s("pub (crate)"))), Visibility::Internal);
    assert_eq!(Visibility::from_vis(&VisibilitySyntax::Restricted(s("pub (super)"))), Visibility::Private);
    assert_eq!(Visibility::from_vis(&VisibilitySyntax::Restricted(s("pub (in crate :: a)"))), Visibility::Private);
}

#[test]
fn settings_defaults() {
    let d = Settings::defaults();
    assert!(d.image_settings.enabled);
    assert_eq!(d.image_settings.scale, 5);
    assert!(!d.diagram_settings.show_parameters);
}

#[test]
fn class_map_insert_get() {
    let mut m = ClassMap::new();
    assert!(!m.contains_key(&s("A")));
    assert_eq!(m.get(&s("A")), None);
    m.insert(s("A"), 3);
    m.insert(s("B"), 1);
    m.insert(s("A"), 7);
    assert!(m.contains_key(&s("A")));
    assert_eq!(m.get(&s("A")), Some(7));
    assert_eq!(m.get(&s("B")), Some(1));
    assert_eq!(m.get(&s("C")), None);
}

#[test]
fn class_map_from_names_keeps_last_position() {
    let names = vec![s("A"), s("B"), s("A"), s("C")];
    let m = ClassMap::from_names(&names);
    assert_eq!(m.get(&s("A")), Some(2));
    assert_eq!(m.get(&s("B")), Some(1));
    assert_eq!(m.get(&s("C")), Some(3));
    assert_eq!(m.get(&s("D")), None);
}

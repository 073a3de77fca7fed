use class_diagram::mermaid::{render_diagram, MermaidDiagram};
use class_diagram::model::{Class, Connection, Field, Function, Relationship, Visibility};
use class_diagram::settings::DiagramSettings;

fn s(x: &str) -> String {
    x.to_string()
}

const HIDE: DiagramSettings = DiagramSettings { show_parameters: false };
const SHOW: DiagramSettings = DiagramSettings { show_parameters: true };

#[test]
fn visibility_symbols() {
    assert_eq!(Visibility::Public.to_diagram_syntax(&HIDE), "+");
    assert_eq!(Visibility::Internal.to_diagram_syntax(&HIDE), "~");
    assert_eq!(Visibility::Private.to_diagram_syntax(&HIDE), "-");
}

#[test]
fn relationship_arrows() {
    assert_eq!(Relationship::Inheritance.to_diagram_syntax(&HIDE), "<|--");
    assert_eq!(Relationship::Association.to_diagram_syntax(&HIDE), "-->");
    assert_eq!(Relationship::Dependency.to_diagram_syntax(&HIDE), "..>");
}

#[test]
fn field_line() {
    let f = Field::new(Visibility::Internal, s("age"), s("u32"));
    assert_eq!(f.to_diagram_syntax(&HIDE), "~age: u32");
}

#[test]
fn function_line_hides_or_shows_parameters() {
    let f = Function::new(Visibility::Public, s("greet"), s("name : String"), s("String"));
    assert_eq!(f.to_diagram_syntax(&HIDE), "+greet() String");
    assert_eq!(f.to_diagram_syntax(&SHOW), "+greet(name : String) String");
    let g = Function::new(Visibility::Private, s("run"), s(""), s(""));
    assert_eq!(g.to_diagram_syntax(&SHOW), "-run() ");
}

#[test]
fn connection_line() {
    let c = Connection::new(s("Town"), s("House"), Relationship::Association);
    assert_eq!(c.to_diagram_syntax(&HIDE), "Town --> House");
}

#[test]
fn class_block() {
    let mut c = Class::new(Visibility::Public, s("Town"));
    c.fields.push(Field::new(Visibility::Public, s("houses"), s("Vec < House >")));
    c.functions.push(Function::new(Visibility::Private, s("size"), s("x : u8"), s("usize")));
    c.add_connection(s("House"), Connection::new(s("Town"), s("House"), Relationship::Association));
    assert_eq!(
        c.to_diagram_syntax(&HIDE),
        "class Town {\n+houses: Vec < House >\n-size() usize\n}\nTown --> House\n"
    );
    let empty = Class::new(Visibility::Private, s("E"));
    assert_eq!(empty.to_diagram_syntax(&HIDE), "class E {\n}\n");
}

#[test]
fn whole_diagram() {
    let a = Class::new(Visibility::Public, s("A"));
    let b = Class::new(Visibility::Public, s("B"));
    assert_eq!(render_diagram(&vec![], &HIDE), "classDiagram\n\n");
    assert_eq!(render_diagram(&vec![a, b], &HIDE), "classDiagram\n\nclass A {\n}\nclass B {\n}\n");
}

//! Rendering of the class model as Mermaid `classDiagram` text.
use vstd::prelude::*;
use vstd::string::StringExecFns;

use crate::model::{
    Class, ClassView, Connection, ConnectionView, Field, FieldView, Function, FunctionView,
    Relationship, Visibility,
};
use crate::settings::DiagramSettings;

verus! {

/// Something that has a Mermaid text form.
pub trait MermaidDiagram {
    /// The text that `to_diagram_syntax` returns.
    spec fn diagram_text(&self, settings: DiagramSettings) -> Seq<char>;

    fn to_diagram_syntax(&self, settings: &DiagramSettings) -> (res: String)
        ensures
            res@ == self.diagram_text(*settings),
    ;
}

/// `+` for public, `~` for internal, `-` for private.
pub open spec fn visibility_text(v: Visibility) -> Seq<char> {
    match v {
        Visibility::Public => "+"@,
        Visibility::Internal => "~"@,
        Visibility::Private => "-"@,
    }
}

/// `<|--` for inheritance, `-->` for association, `..>` for dependency.
pub open spec fn relationship_text(r: Relationship) -> Seq<char> {
    match r {
        Relationship::Inheritance => "<|--"@,
        Relationship::Association => "-->"@,
        Relationship::Dependency => "..>"@,
    }
}

/// `<visibility><name>: <type>`
pub open spec fn field_text(f: FieldView) -> Seq<char> {
    visibility_text(f.visibility) + f.name + ": "@ + f.type_string
}

/// `<visibility><name>(<params>) <return type>`, with the parameters left
/// out unless `show_parameters` holds.
pub open spec fn function_text(f: FunctionView, show_parameters: bool) -> Seq<char> {
    visibility_text(f.visibility) + f.name + "("@ + (if show_parameters {
        f.params
    } else {
        Seq::empty()
    }) + ") "@ + f.return_type
}

/// `<name_a> <arrow> <name_b>`
pub open spec fn connection_text(c: ConnectionView) -> Seq<char> {
    c.name_a + " "@ + relationship_text(c.relationship) + " "@ + c.name_b
}

/// One line per field.
pub open spec fn field_lines(fs: Seq<FieldView>) -> Seq<char>
    decreases fs.len(),
{
    if fs.len() == 0 {
        Seq::empty()
    } else {
        field_lines(fs.drop_last()) + field_text(fs.last()) + "\n"@
    }
}

/// One line per function.
pub open spec fn function_lines(fs: Seq<FunctionView>, show_parameters: bool) -> Seq<char>
    decreases fs.len(),
{
    if fs.len() == 0 {
        Seq::empty()
    } else {
        function_lines(fs.drop_last(), show_parameters) + function_text(fs.last(), show_parameters)
            + "\n"@
    }
}

/// One line per connection, in the stored order.
pub open spec fn connection_lines(cs: Seq<(Seq<char>, ConnectionView)>) -> Seq<char>
    decreases cs.len(),
{
    if cs.len() == 0 {
        Seq::empty()
    } else {
        connection_lines(cs.drop_last()) + connection_text(cs.last().1) + "\n"@
    }
}

/// `class <name> {`, the field and function lines, `}`, then the connection lines.
pub open spec fn class_text(c: ClassView, show_parameters: bool) -> Seq<char> {
    "class "@ + c.name + " {\n"@ + field_lines(c.fields) + function_lines(
        c.functions,
        show_parameters,
    ) + "}\n"@ + connection_lines(c.connections)
}

/// The whole diagram: a `classDiagram` header, then every class in order.
pub open spec fn classes_text(cs: Seq<ClassView>, show_parameters: bool) -> Seq<char>
    decreases cs.len(),
{
    if cs.len() == 0 {
        Seq::empty()
    } else {
        classes_text(cs.drop_last(), show_parameters) + class_text(cs.last(), show_parameters)
    }
}

pub open spec fn diagram_text(cs: Seq<ClassView>, show_parameters: bool) -> Seq<char> {
    "classDiagram\n\n"@ + classes_text(cs, show_parameters)
}

impl MermaidDiagram for Visibility {
    open spec fn diagram_text(&self, settings: DiagramSettings) -> Seq<char> {
        visibility_text(*self)
    }

    fn to_diagram_syntax(&self, settings: &DiagramSettings) -> (res: String) {
        match self {
            Visibility::Public => String::from_str("+"),
            Visibility::Internal => String::from_str("~"),
            Visibility::Private => String::from_str("-"),
        }
    }
}

impl MermaidDiagram for Relationship {
    open spec fn diagram_text(&self, settings: DiagramSettings) -> Seq<char> {
        relationship_text(*self)
    }

    fn to_diagram_syntax(&self, settings: &DiagramSettings) -> (res: String) {
        match self {
            Relationship::Inheritance => String::from_str("<|--"),
            Relationship::Association => String::from_str("-->"),
            Relationship::Dependency => String::from_str("..>"),
        }
    }
}

impl MermaidDiagram for Field {
    open spec fn diagram_text(&self, settings: DiagramSettings) -> Seq<char> {
        field_text(self@)
    }

    fn to_diagram_syntax(&self, settings: &DiagramSettings) -> (res: String) {
        let mut res = self.visibility.to_diagram_syntax(settings);
        res.append(self.name.as_str());
        res.append(": ");
        res.append(self.type_string.as_str());
        res
    }
}

impl MermaidDiagram for Function {
    open spec fn diagram_text(&self, settings: DiagramSettings) -> Seq<char> {
        function_text(self@, settings.show_parameters)
    }

    fn to_diagram_syntax(&self, settings: &DiagramSettings) -> (res: String) {
        let mut parameters = String::new();
        if settings.show_parameters {
            parameters = self.params.clone();
        }
        let mut res = self.visibility.to_diagram_syntax(settings);
        res.append(self.name.as_str());
        res.append("(");
        res.append(parameters.as_str());
        res.append(") ");
        res.append(self.return_type.as_str());
        res
    }
}

impl MermaidDiagram for Connection {
    open spec fn diagram_text(&self, settings: DiagramSettings) -> Seq<char> {
        connection_text(self@)
    }

    fn to_diagram_syntax(&self, settings: &DiagramSettings) -> (res: String) {
        let mut res = self.name_a.clone();
        res.append(" ");
        let arrow = self.relationship.to_diagram_syntax(settings);
        res.append(arrow.as_str());
        res.append(" ");
        res.append(self.name_b.as_str());
        res
    }
}

impl MermaidDiagram for Class {
    open spec fn diagram_text(&self, settings: DiagramSettings) -> Seq<char> {
        class_text(self@, settings.show_parameters)
    }

    fn to_diagram_syntax(&self, settings: &DiagramSettings) -> (res: String) {
        let mut res = String::new();
        res.append("class ");
        res.append(self.name.as_str());
        res.append(" {\n");
        let ghost head = res@;
        let ghost fs = self@.fields;
        let mut i: usize = 0;
        while i < self.fields.len()
            invariant
                i <= self.fields.len(),
                fs == self@.fields,
                res@ == head + field_lines(fs.take(i as int)),
            decreases self.fields.len() - i,
        {
            let line = self.fields[i].to_diagram_syntax(settings);
            res.append(line.as_str());
            res.append("\n");
            assert(fs.take(i + 1).drop_last() =~= fs.take(i as int));
            i = i + 1;
        }
        assert(fs.take(fs.len() as int) =~= fs);
        let ghost head = res@;
        let ghost gs = self@.functions;
        let mut i: usize = 0;
        while i < self.functions.len()
            invariant
                i <= self.functions.len(),
                gs == self@.functions,
                res@ == head + function_lines(gs.take(i as int), settings.show_parameters),
            decreases self.functions.len() - i,
        {
            let line = self.functions[i].to_diagram_syntax(settings);
            res.append(line.as_str());
            res.append("\n");
            assert(gs.take(i + 1).drop_last() =~= gs.take(i as int));
            i = i + 1;
        }
        assert(gs.take(gs.len() as int) =~= gs);
        res.append("}\n");
        let ghost head = res@;
        let ghost cs = self@.connections;
        let mut i: usize = 0;
        while i < self.connections.len()
            invariant
                i <= self.connections.len(),
                cs == self@.connections,
                res@ == head + connection_lines(cs.take(i as int)),
            decreases self.connections.len() - i,
        {
            let line = self.connections[i].1.to_diagram_syntax(settings);
            res.append(line.as_str());
            res.append("\n");
            assert(cs.take(i + 1).drop_last() =~= cs.take(i as int));
            i = i + 1;
        }
        assert(cs.take(cs.len() as int) =~= cs);
        res
    }
}

/// The diagram for all `classes`, in order.
pub fn render_diagram(classes: &Vec<Class>, settings: &DiagramSettings) -> (res: String)
    ensures
        res@ == diagram_text(classes@.map_values(|c: Class| c@), settings.show_parameters),
{
    let ghost cs = classes@.map_values(|c: Class| c@);
    let mut res = String::from_str("classDiagram\n\n");
    let ghost head = res@;
    let mut i: usize = 0;
    while i < classes.len()
        invariant
            i <= classes.len(),
            cs == classes@.map_values(|c: Class| c@),
            res@ == head + classes_text(cs.take(i as int), settings.show_parameters),
        decreases classes.len() - i,
    {
        let text = classes[i].to_diagram_syntax(settings);
        res.append(text.as_str());
        assert(cs.take(i + 1).drop_last() =~= cs.take(i as int));
        i = i + 1;
    }
    assert(cs.take(cs.len() as int) =~= cs);
    res
}

} // verus!

verus! {

/// With parameters hidden, a method line does not depend on the parameters.
pub proof fn lemma_hidden_parameters(f: FunctionView, g: FunctionView)
    requires
        f.visibility == g.visibility,
        f.name == g.name,
        f.return_type == g.return_type,
    ensures
        function_text(f, false) == function_text(g, false),
{
}

/// Different visibilities, and different relationships, are drawn differently.
pub proof fn lemma_symbols_distinct(v: Visibility, w: Visibility, r: Relationship, s: Relationship)
    ensures
        v != w ==> visibility_text(v) != visibility_text(w),
        r != s ==> relationship_text(r) != relationship_text(s),
{
    reveal_strlit("+");
    reveal_strlit("~");
    reveal_strlit("-");
    reveal_strlit("<|--");
    reveal_strlit("-->");
    reveal_strlit("..>");
    if v != w {
        assert(visibility_text(v)[0] != visibility_text(w)[0]);
    }
    if r != s {
        assert(relationship_text(r).len() != relationship_text(s).len() || relationship_text(r)[0]
            != relationship_text(s)[0]);
    }
}

} // verus!

//! The classes that the items of a source file declare.
use vstd::prelude::*;
use vstd::string::StringExecFns;

use crate::members::{function_from_signature, signature_function};
use crate::model::{
    visibility_of, Class, ClassView, ConnectionView, Field, FieldView, FunctionView, Visibility,
};
use crate::relationships::{all_wf, class_names, class_views};
use crate::syntax::{
    FieldSyntax, FileSyntax, ItemSyntax, SignatureSyntax, TraitItemSyntax, VisibilitySyntax,
};

verus! {

/// Token text of a visibility: `pub`, the text of the restriction, or nothing.
pub open spec fn visibility_tokens(vis: VisibilitySyntax) -> Seq<char> {
    match vis {
        VisibilitySyntax::Public => "pub"@,
        VisibilitySyntax::Restricted(scope) => scope@,
        VisibilitySyntax::Inherited => Seq::empty(),
    }
}

/// Field line of a named struct field: its visibility, name and type text.
pub open spec fn struct_field(f: FieldSyntax) -> FieldView {
    FieldView {
        visibility: visibility_of(f.visibility),
        name: f.ident.unwrap()@,
        type_string: f.ty@,
    }
}

/// Field line of an enum variant: the enum's visibility, the variant's name, no type.
pub open spec fn variant_field(visibility: Visibility, variant: String) -> FieldView {
    FieldView { visibility, name: variant@, type_string: Seq::empty() }
}

/// Method lines of the methods of a trait, all with the trait's visibility.
pub open spec fn trait_functions(items: Seq<TraitItemSyntax>, visibility: Visibility) -> Seq<
    FunctionView,
>
    decreases items.len(),
{
    if items.len() == 0 {
        Seq::empty()
    } else {
        let rest = trait_functions(items.drop_last(), visibility);
        match items.last() {
            TraitItemSyntax::Fn(sig) => rest.push(signature_function(visibility, sig)),
            TraitItemSyntax::Other => rest,
        }
    }
}

pub open spec fn bare_class(visibility: Visibility, name: Seq<char>) -> ClassView {
    ClassView {
        visibility,
        name,
        fields: Seq::empty(),
        functions: Seq::empty(),
        connections: Seq::empty(),
    }
}

/// The class an item declares: a struct with a line per field, an enum with
/// a line per variant, a trait with a line per method, a free function with
/// one line that holds its visibility text; other items declare none.
pub open spec fn item_class(item: ItemSyntax) -> Option<ClassView> {
    match item {
        ItemSyntax::Struct { visibility, ident, fields } => Some(
            ClassView {
                fields: fields@.map_values(|f: FieldSyntax| struct_field(f)),
                ..bare_class(visibility_of(visibility), ident@)
            },
        ),
        ItemSyntax::Enum { visibility, ident, variants } => Some(
            ClassView {
                fields: variants@.map_values(
                    |v: String| variant_field(visibility_of(visibility), v),
                ),
                ..bare_class(visibility_of(visibility), ident@)
            },
        ),
        ItemSyntax::Trait { visibility, ident, items } => Some(
            ClassView {
                functions: trait_functions(items@, visibility_of(visibility)),
                ..bare_class(visibility_of(visibility), ident@)
            },
        ),
        ItemSyntax::Fn { visibility, sig, .. } => Some(
            ClassView {
                fields: seq![
                    FieldView {
                        visibility: visibility_of(visibility),
                        name: visibility_tokens(visibility),
                        type_string: Seq::empty(),
                    },
                ],
                ..bare_class(visibility_of(visibility), sig.ident@)
            },
        ),
        _ => None,
    }
}

/// The classes the items declare, in order.
pub open spec fn item_classes(items: Seq<ItemSyntax>) -> Seq<ClassView>
    decreases items.len(),
{
    if items.len() == 0 {
        Seq::empty()
    } else {
        let rest = item_classes(items.drop_last());
        match item_class(items.last()) {
            Some(c) => rest.push(c),
            None => rest,
        }
    }
}

/// Every field of every struct has a name (no tuple structs).
pub open spec fn struct_fields_named(items: Seq<ItemSyntax>) -> bool {
    forall|i: int, j: int|
        #![trigger items[i], fields_of(items[i])[j]]
        0 <= i < items.len() && 0 <= j < fields_of(items[i]).len() ==> fields_of(
            items[i],
        )[j].ident is Some
}

/// The fields of a struct item; none for other items.
pub open spec fn fields_of(item: ItemSyntax) -> Seq<FieldSyntax> {
    match item {
        ItemSyntax::Struct { fields, .. } => fields@,
        _ => Seq::empty(),
    }
}

fn visibility_token_text(vis: &VisibilitySyntax) -> (res: String)
    ensures
        res@ == visibility_tokens(*vis),
{
    match vis {
        VisibilitySyntax::Public => String::from_str("pub"),
        VisibilitySyntax::Restricted(scope) => scope.clone(),
        VisibilitySyntax::Inherited => String::new(),
    }
}

fn item_to_class(item: &ItemSyntax) -> (res: Option<Class>)
    requires
        forall|j: int| 0 <= j < fields_of(*item).len() ==> (#[trigger] fields_of(*item)[j]).ident is Some,
    ensures
        match res {
            Some(c) => item_class(*item) == Some(c@) && c.wf(),
            None => item_class(*item) is None,
        },
{
    match item {
        ItemSyntax::Struct { visibility, ident, fields } => {
            let mut class = Class::new(Visibility::from_vis(visibility), ident.clone());
            assert(fields_of(*item) == fields@);
            let mut i: usize = 0;
            while i < fields.len()
                invariant
                    i <= fields.len(),
                    forall|j: int| 0 <= j < fields.len() ==> (#[trigger] fields@[j]).ident is Some,
                    class@.visibility == visibility_of(*visibility),
                    class@.name == ident@,
                    class@.fields =~= fields@.take(i as int).map_values(|f: FieldSyntax| struct_field(f)),
                    class@.functions =~= Seq::<FunctionView>::empty(),
                    class@.connections =~= Seq::<(Seq<char>, ConnectionView)>::empty(),
                decreases fields.len() - i,
            {
                let field = &fields[i];
                let name = match &field.ident {
                    Some(n) => n.clone(),
                    None => String::new(),
                };
                class.fields.push(
                    Field::new(Visibility::from_vis(&field.visibility), name, field.ty.clone()),
                );
                assert(fields@.take(i + 1).map_values(|f: FieldSyntax| struct_field(f)) =~= fields@.take(
                    i as int,
                ).map_values(|f: FieldSyntax| struct_field(f)).push(struct_field(fields@[i as int])));
                i = i + 1;
            }
            assert(fields@.take(fields.len() as int) =~= fields@);
            assert(class@.fields =~= fields@.map_values(|f: FieldSyntax| struct_field(f)));
            assert(class.wf());
            assert(item_class(*item) == Some(class@));
            Some(class)
        },
        ItemSyntax::Enum { visibility, ident, variants } => {
            let vis = Visibility::from_vis(visibility);
            let mut class = Class::new(vis, ident.clone());
            let mut i: usize = 0;
            while i < variants.len()
                invariant
                    i <= variants.len(),
                    vis == visibility_of(*visibility),
                    class@.visibility == vis,
                    class@.name == ident@,
                    class@.fields =~= variants@.take(i as int).map_values(
                        |v: String| variant_field(vis, v),
                    ),
                    class@.functions =~= Seq::<FunctionView>::empty(),
                    class@.connections =~= Seq::<(Seq<char>, ConnectionView)>::empty(),
                decreases variants.len() - i,
            {
                class.fields.push(Field::new(vis, variants[i].clone(), String::new()));
                assert(variants@.take(i + 1).map_values(|v: String| variant_field(vis, v))
                    =~= variants@.take(i as int).map_values(|v: String| variant_field(vis, v)).push(
                    variant_field(vis, variants@[i as int]),
                ));
                i = i + 1;
            }
            assert(variants@.take(variants.len() as int) =~= variants@);
            assert(class@.connections =~= Seq::<(Seq<char>, ConnectionView)>::empty());
            assert(class.wf());
            assert(item_class(*item) == Some(class@));
            Some(class)
        },
        ItemSyntax::Trait { visibility, ident, items } => {
            let vis = Visibility::from_vis(visibility);
            let mut class = Class::new(vis, ident.clone());
            let mut i: usize = 0;
            while i < items.len()
                invariant
                    i <= items.len(),
                    vis == visibility_of(*visibility),
                    class@.visibility == vis,
                    class@.name == ident@,
                    class@.fields =~= Seq::<FieldView>::empty(),
                    class@.functions =~= trait_functions(items@.take(i as int), vis),
                    class@.connections =~= Seq::<(Seq<char>, ConnectionView)>::empty(),
                decreases items.len() - i,
            {
                assert(items@.take(i + 1).drop_last() =~= items@.take(i as int));
                match &items[i] {
                    TraitItemSyntax::Fn(sig) => {
                        let f = function_from_signature(vis, sig);
                        let ghost before = class@.functions;
                        class.functions.push(f);
                        assert(class@.functions =~= before.push(f@));
                    },
                    TraitItemSyntax::Other => {},
                }
                i = i + 1;
            }
            assert(items@.take(items.len() as int) =~= items@);
            assert(class@.connections =~= Seq::<(Seq<char>, ConnectionView)>::empty());
            assert(class.wf());
            assert(item_class(*item) == Some(class@));
            Some(class)
        },
        ItemSyntax::Fn { visibility, sig, .. } => {
            let vis = Visibility::from_vis(visibility);
            let mut class = Class::new(vis, sig.ident.clone());
            let text = visibility_token_text(visibility);
            let field = Field::new(vis, text, String::new());
            class.fields.push(field);
            assert(class@.fields =~= seq![field@]);
            assert(class@.connections =~= Seq::<(Seq<char>, ConnectionView)>::empty());
            assert(class.wf());
            assert(item_class(*item) == Some(class@));
            Some(class)
        },
        _ => None,
    }
}

/// The names of the classes that the items of `syntax` declare, and those
/// classes, in item order.
pub fn init_classes(syntax: &FileSyntax) -> (res: (Vec<String>, Vec<Class>))
    requires
        struct_fields_named(syntax.items@),
    ensures
        class_views(res.1@) == item_classes(syntax.items@),
        res.0@.map_values(|s: String| s@) == class_names(res.1@),
        all_wf(res.1@),
{
    let ghost items = syntax.items@;
    let mut class_names_v: Vec<String> = Vec::new();
    let mut classes: Vec<Class> = Vec::new();
    let mut i: usize = 0;
    while i < syntax.items.len()
        invariant
            i <= syntax.items.len(),
            items == syntax.items@,
            struct_fields_named(items),
            class_views(classes@) == item_classes(items.take(i as int)),
            class_names_v@.map_values(|s: String| s@) == class_names(classes@),
            all_wf(classes@),
        decreases syntax.items.len() - i,
    {
        assert(items.take(i + 1).drop_last() =~= items.take(i as int));
        assert(items.take(i + 1).last() == items[i as int]);
        let item = &syntax.items[i];
        assert forall|j: int| 0 <= j < fields_of(*item).len() implies (#[trigger] fields_of(
            *item,
        )[j]).ident is Some by {
            assert(items[i as int] == *item);
        }
        match item_to_class(item) {
            Some(class) => {
                let name = class.name.clone();
                let ghost names_before = class_names_v@;
                let ghost classes_before = classes@;
                class_names_v.push(name);
                classes.push(class);
                assert(class_names_v@.map_values(|s: String| s@) =~= names_before.map_values(
                    |s: String| s@,
                ).push(name@));
                assert(class_names(classes@) =~= class_names(classes_before).push(class.name@));
                assert(class_views(classes@) =~= class_views(classes_before).push(class@));
                assert(class_views(classes@) =~= item_classes(items.take(i as int)).push(class@));
                assert(class_names_v@.map_values(|s: String| s@) =~= class_names(classes@));
            },
            None => {},
        }
        i = i + 1;
    }
    assert(items.take(items.len() as int) =~= items);
    (class_names_v, classes)
}

} // verus!

verus! {

/// Every class that items declare starts with no connections.
pub proof fn lemma_item_classes_unconnected(items: Seq<ItemSyntax>)
    ensures
        forall|i: int|
            0 <= i < item_classes(items).len() ==> (#[trigger] item_classes(items)[i]).connections.len()
                == 0,
    decreases items.len(),
{
    if items.len() > 0 {
        lemma_item_classes_unconnected(items.drop_last());
    }
}

/// The signatures of the methods among a trait's items, in item order.
pub open spec fn trait_method_sigs(items: Seq<TraitItemSyntax>) -> Seq<SignatureSyntax> {
    items.filter(|it: TraitItemSyntax| it is Fn).map_values(|it: TraitItemSyntax| it->0)
}

/// The method signatures of a trait's items grow by one exactly when the
/// last item is a method.
pub proof fn lemma_trait_method_sigs_push(items: Seq<TraitItemSyntax>)
    requires
        items.len() > 0,
    ensures
        trait_method_sigs(items) == match items.last() {
            TraitItemSyntax::Fn(sig) => trait_method_sigs(items.drop_last()).push(sig),
            TraitItemSyntax::Other => trait_method_sigs(items.drop_last()),
        },
{
    let is_fn = |it: TraitItemSyntax| it is Fn;
    let get = |it: TraitItemSyntax| it->0;
    reveal(Seq::filter);
    let sub = items.drop_last().filter(is_fn);
    assert(items.filter(is_fn) == (if is_fn(items.last()) {
        sub.push(items.last())
    } else {
        sub
    }));
    match items.last() {
        TraitItemSyntax::Fn(sig) => {
            assert(sub.push(items.last()).map_values(get) =~= sub.map_values(get).push(sig));
        },
        TraitItemSyntax::Other => {},
    }
}

proof fn lemma_trait_functions_are_method_lines(items: Seq<TraitItemSyntax>, visibility: Visibility)
    ensures
        trait_functions(items, visibility) == trait_method_sigs(items).map_values(
            |sig: SignatureSyntax| signature_function(visibility, sig),
        ),
    decreases items.len(),
{
    let line = |sig: SignatureSyntax| signature_function(visibility, sig);
    if items.len() == 0 {
        reveal(Seq::filter);
        assert(items.filter(|it: TraitItemSyntax| it is Fn) =~= Seq::<TraitItemSyntax>::empty());
        assert(trait_method_sigs(items).map_values(line) =~= Seq::<FunctionView>::empty());
    } else {
        let pre = items.drop_last();
        lemma_trait_functions_are_method_lines(pre, visibility);
        lemma_trait_method_sigs_push(items);
        match items.last() {
            TraitItemSyntax::Fn(sig) => {
                assert(trait_method_sigs(pre).push(sig).map_values(line) =~= trait_method_sigs(
                    pre,
                ).map_values(line).push(line(sig)));
            },
            TraitItemSyntax::Other => {},
        }
    }
}

/// The class of a trait has one method line per method of the trait (and
/// none for its other items), in item order: the line built from that
/// method's signature with the trait's visibility.
pub proof fn lemma_trait_class_methods(item: ItemSyntax)
    requires
        item is Trait,
    ensures
        item matches ItemSyntax::Trait { visibility, items, .. } && item_class(item) matches Some(c)
            && c.functions == trait_method_sigs(items@).map_values(
            |sig: SignatureSyntax| signature_function(visibility_of(visibility), sig),
        ),
{
    match item {
        ItemSyntax::Trait { visibility, items, .. } => {
            lemma_trait_functions_are_method_lines(items@, visibility_of(visibility));
        },
        _ => {},
    }
}

} // verus!

//! Names of the types a source file declares.
use vstd::prelude::*;

use crate::init_classes::{item_class, item_classes};
use crate::relationships::view_names;
use crate::syntax::{FileSyntax, ItemSyntax};

verus! {

/// The name of a struct, enum or trait item.
pub open spec fn declared_type(item: ItemSyntax) -> Option<Seq<char>> {
    match item {
        ItemSyntax::Struct { ident, .. } => Some(ident@),
        ItemSyntax::Enum { ident, .. } => Some(ident@),
        ItemSyntax::Trait { ident, .. } => Some(ident@),
        _ => None,
    }
}

/// The names of the structs, enums and traits, in item order.
pub open spec fn declared_types(items: Seq<ItemSyntax>) -> Seq<Seq<char>>
    decreases items.len(),
{
    if items.len() == 0 {
        Seq::empty()
    } else {
        let rest = declared_types(items.drop_last());
        match declared_type(items.last()) {
            Some(n) => rest.push(n),
            None => rest,
        }
    }
}

/// The names of the structs, enums and traits of `syntax`, in item order.
pub fn discover_types(syntax: &FileSyntax) -> (res: Vec<String>)
    ensures
        res@.map_values(|s: String| s@) == declared_types(syntax.items@),
{
    let ghost items = syntax.items@;
    let mut defined_types: Vec<String> = Vec::new();
    let mut i: usize = 0;
    while i < syntax.items.len()
        invariant
            i <= syntax.items.len(),
            items == syntax.items@,
            defined_types@.map_values(|s: String| s@) == declared_types(items.take(i as int)),
        decreases syntax.items.len() - i,
    {
        assert(items.take(i + 1).drop_last() =~= items.take(i as int));
        assert(items.take(i + 1).last() == items[i as int]);
        let ghost before = defined_types@;
        let name = match &syntax.items[i] {
            ItemSyntax::Struct { ident, .. } => Some(ident.clone()),
            ItemSyntax::Enum { ident, .. } => Some(ident.clone()),
            ItemSyntax::Trait { ident, .. } => Some(ident.clone()),
            _ => None,
        };
        match name {
            Some(n) => {
                defined_types.push(n);
                assert(defined_types@.map_values(|s: String| s@) =~= before.map_values(
                    |s: String| s@,
                ).push(n@));
            },
            None => {},
        }
        i = i + 1;
    }
    assert(items.take(items.len() as int) =~= items);
    defined_types
}

} // verus!

verus! {

/// Whether an item is a free function.
pub open spec fn is_fn_item(item: ItemSyntax) -> bool {
    item is Fn
}

/// The declared type names are the names of the classes `init_classes`
/// builds, with the classes of free functions left out, in the same order.
pub proof fn lemma_declared_types_are_class_names(items: Seq<ItemSyntax>)
    ensures
        declared_types(items) == view_names(
            item_classes(items.filter(|it: ItemSyntax| !is_fn_item(it))),
        ),
    decreases items.len(),
{
    let p = |it: ItemSyntax| !is_fn_item(it);
    if items.len() > 0 {
        lemma_declared_types_are_class_names(items.drop_last());
        let sub = items.drop_last().filter(p);
        reveal(Seq::filter);
        assert(items.filter(p) == (if p(items.last()) {
            sub.push(items.last())
        } else {
            sub
        }));
        if p(items.last()) {
            assert(sub.push(items.last()).drop_last() =~= sub);
            assert(view_names(item_classes(sub.push(items.last()))) =~= match item_class(
                items.last(),
            ) {
                Some(c) => view_names(item_classes(sub)).push(c.name),
                None => view_names(item_classes(sub)),
            });
        }
    } else {
        reveal(Seq::filter);
        assert(items.filter(p) =~= Seq::<ItemSyntax>::empty());
        assert(view_names(item_classes(items.filter(p))) =~= Seq::<Seq<char>>::empty());
    }
}

} // verus!

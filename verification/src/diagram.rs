//! A whole diagram from several source files: every file contributes its
//! classes, then every file contributes its relationships.
use vstd::prelude::*;

use crate::class_map::{names_map, ClassMap};
use crate::init_classes::{init_classes, item_class, item_classes, struct_fields_named};
use crate::mermaid::{diagram_text, render_diagram};
use crate::model::{has_key, Class, ClassView};
use crate::relationships::{
    all_wf, apply_edits, class_names, class_views, file_edits, find_relationships,
    lemma_apply_edits_grows, lemma_struct_field_association, map_in_range, trait_paths_are_idents,
    view_names,
};
use crate::settings::DiagramSettings;
use crate::syntax::{FileSyntax, ItemSyntax};

verus! {

/// The classes that all files declare, file by file.
pub open spec fn files_classes(files: Seq<FileSyntax>) -> Seq<ClassView>
    decreases files.len(),
{
    if files.len() == 0 {
        Seq::empty()
    } else {
        files_classes(files.drop_last()) + item_classes(files.last().items@)
    }
}

/// The classes after the relationship edits of every file, file by file.
pub open spec fn relate_files(
    cs: Seq<ClassView>,
    files: Seq<FileSyntax>,
    map: Map<Seq<char>, usize>,
    names: Seq<Seq<char>>,
) -> Seq<ClassView>
    decreases files.len(),
{
    if files.len() == 0 {
        cs
    } else {
        apply_edits(
            relate_files(cs, files.drop_last(), map, names),
            file_edits(files.last().items@, map, names),
        )
    }
}

/// The class model of a set of files: their classes, with each name mapped
/// to the last class of that name, after the relationships of every file.
pub open spec fn files_model(files: Seq<FileSyntax>) -> Seq<ClassView> {
    let cs = files_classes(files);
    relate_files(cs, files, names_map(view_names(cs)), view_names(cs))
}

/// Every file can be processed: no tuple struct, and every trait path of an
/// impl block is a single identifier.
pub open spec fn files_supported(files: Seq<FileSyntax>) -> bool {
    forall|i: int|
        0 <= i < files.len() ==> struct_fields_named(#[trigger] files[i].items@)
            && trait_paths_are_idents(files[i].items@)
}

/// The map from names to their last positions maps every name to a
/// position that holds that name.
pub proof fn lemma_names_map(names: Seq<Seq<char>>)
    requires
        names.len() <= usize::MAX,
    ensures
        forall|k: Seq<char>| #[trigger]
            names_map(names).contains_key(k) ==> names_map(names)[k] < names.len()
                && names[names_map(names)[k] as int] == k,
        forall|i: int| 0 <= i < names.len() ==> names_map(names).contains_key(#[trigger] names[i]),
    decreases names.len(),
{
    if names.len() > 0 {
        lemma_names_map(names.drop_last());
        assert forall|k: Seq<char>| #[trigger] names_map(names).contains_key(k) implies names_map(
            names,
        )[k] < names.len() && names[names_map(names)[k] as int] == k by {
            assert(names_map(names) == names_map(names.drop_last()).insert(
                names.last(),
                (names.len() - 1) as usize,
            ));
            if k != names.last() {
                let j: int = names_map(names.drop_last())[k] as int;
                assert(names.drop_last().contains(k) || names_map(names.drop_last()).contains_key(k));
                assert(names.drop_last()[j] == k);
                assert(names[j] == names.drop_last()[j]);
            }
        }
        assert forall|i: int| 0 <= i < names.len() implies names_map(names).contains_key(
            #[trigger] names[i],
        ) by {
            if i < names.len() - 1 {
                assert(names.drop_last()[i] == names[i]);
            }
        }
    }
}

/// The diagram of all `files`: see [`files_model`] and [`diagram_text`].
pub fn build_diagram(files: &Vec<FileSyntax>, settings: &DiagramSettings) -> (res: String)
    requires
        files_supported(files@),
    ensures
        res@ == diagram_text(files_model(files@), settings.show_parameters),
{
    let ghost fs = files@;
    let mut class_names_v: Vec<String> = Vec::new();
    let mut classes: Vec<Class> = Vec::new();
    let mut i: usize = 0;
    while i < files.len()
        invariant
            i <= files.len(),
            fs == files@,
            files_supported(fs),
            class_views(classes@) == files_classes(fs.take(i as int)),
            class_names_v@.map_values(|s: String| s@) == class_names(classes@),
            all_wf(classes@),
        decreases files.len() - i,
    {
        assert(fs.take(i + 1).drop_last() =~= fs.take(i as int));
        assert(fs.take(i + 1).last() == fs[i as int]);
        assert(struct_fields_named(fs[i as int].items@));
        let (mut names, mut found) = init_classes(&files[i]);
        let ghost names_before = class_names_v@;
        let ghost classes_before = classes@;
        let ghost new_names = names@;
        let ghost new_classes = found@;
        class_names_v.append(&mut names);
        classes.append(&mut found);
        assert(class_views(classes@) =~= class_views(classes_before) + class_views(new_classes));
        assert(class_names(classes@) =~= class_names(classes_before) + class_names(new_classes));
        assert(class_names_v@.map_values(|s: String| s@) =~= names_before.map_values(
            |s: String| s@,
        ) + new_names.map_values(|s: String| s@));
        i = i + 1;
    }
    assert(fs.take(fs.len() as int) =~= fs);
    let ghost cs = class_views(classes@);
    let ghost names0 = class_names(classes@);
    assert(view_names(cs) =~= names0);
    let class_map = ClassMap::from_names(&class_names_v);
    proof {
        assert(names0.len() == classes.len());
        lemma_names_map(names0);
    }
    let mut i: usize = 0;
    while i < files.len()
        invariant
            i <= files.len(),
            fs == files@,
            files_supported(fs),
            cs == files_classes(fs),
            names0 == view_names(cs),
            class_map.wf(),
            class_map@ == names_map(names0),
            map_in_range(class_map@, classes.len() as nat),
            classes.len() == cs.len(),
            class_names(classes@) == names0,
            class_views(classes@) == relate_files(cs, fs.take(i as int), names_map(names0), names0),
            all_wf(classes@),
        decreases files.len() - i,
    {
        assert(fs.take(i + 1).drop_last() =~= fs.take(i as int));
        assert(fs.take(i + 1).last() == fs[i as int]);
        assert(trait_paths_are_idents(fs[i as int].items@));
        let ghost before = classes@;
        find_relationships(&files[i], &class_map, &mut classes);
        proof {
            let es = file_edits(fs[i as int].items@, class_map@, names0);
            lemma_apply_edits_grows(class_views(before), es);
            assert forall|j: int| 0 <= j < classes@.len() implies class_names(classes@)[j]
                == names0[j] by {
                assert(class_views(classes@)[j].name == class_views(before)[j].name);
            }
            assert(class_names(classes@) =~= names0);
        }
        i = i + 1;
    }
    render_diagram(&classes, settings)
}

} // verus!

verus! {

proof fn lemma_relate_files_concat(
    cs: Seq<ClassView>,
    a: Seq<FileSyntax>,
    b: Seq<FileSyntax>,
    map: Map<Seq<char>, usize>,
    names: Seq<Seq<char>>,
)
    ensures
        relate_files(cs, a + b, map, names) == relate_files(
            relate_files(cs, a, map, names),
            b,
            map,
            names,
        ),
    decreases b.len(),
{
    if b.len() == 0 {
        assert(a + b =~= a);
    } else {
        assert((a + b).drop_last() =~= a + b.drop_last());
        assert((a + b).last() == b.last());
        lemma_relate_files_concat(cs, a, b.drop_last(), map, names);
    }
}

proof fn lemma_relate_files_grows(
    cs: Seq<ClassView>,
    files: Seq<FileSyntax>,
    map: Map<Seq<char>, usize>,
    names: Seq<Seq<char>>,
)
    ensures
        relate_files(cs, files, map, names).len() == cs.len(),
        forall|i: int|
            #![trigger relate_files(cs, files, map, names)[i]]
            0 <= i < cs.len() ==> {
                &&& relate_files(cs, files, map, names)[i].name == cs[i].name
                &&& forall|k: Seq<char>|
                    has_key(cs[i].connections, k) ==> #[trigger] has_key(
                        relate_files(cs, files, map, names)[i].connections,
                        k,
                    )
            },
    decreases files.len(),
{
    if files.len() > 0 {
        let mid = relate_files(cs, files.drop_last(), map, names);
        lemma_relate_files_grows(cs, files.drop_last(), map, names);
        lemma_apply_edits_grows(mid, file_edits(files.last().items@, map, names));
        assert forall|i: int| 0 <= i < cs.len() implies {
            &&& relate_files(cs, files, map, names)[i].name == cs[i].name
            &&& forall|k: Seq<char>|
                has_key(cs[i].connections, k) ==> #[trigger] has_key(
                    relate_files(cs, files, map, names)[i].connections,
                    k,
                )
        } by {
            assert(mid[i].name == cs[i].name);
        }
    }
}

proof fn lemma_item_classes_contains(items: Seq<ItemSyntax>, i: int)
    requires
        0 <= i < items.len(),
        item_class(items[i]) is Some,
    ensures
        item_classes(items).contains(item_class(items[i]).unwrap()),
    decreases items.len(),
{
    let c = item_class(items[i]).unwrap();
    let rest = item_classes(items.drop_last());
    if i == items.len() - 1 {
        assert(item_classes(items) == rest.push(c));
        assert(item_classes(items)[rest.len() as int] == c);
    } else {
        assert(items.drop_last()[i] == items[i]);
        lemma_item_classes_contains(items.drop_last(), i);
        let x: int = choose|x: int| 0 <= x < rest.len() && rest[x] == c;
        assert(item_classes(items)[x] == c);
    }
}

proof fn lemma_files_classes_contains(files: Seq<FileSyntax>, f: int, c: ClassView)
    requires
        0 <= f < files.len(),
        item_classes(files[f].items@).contains(c),
    ensures
        files_classes(files).contains(c),
    decreases files.len(),
{
    let rest = files_classes(files.drop_last());
    let own = item_classes(files.last().items@);
    if f == files.len() - 1 {
        let x: int = choose|x: int| 0 <= x < own.len() && own[x] == c;
        assert((rest + own)[rest.len() + x] == c);
    } else {
        assert(files.drop_last()[f] == files[f]);
        lemma_files_classes_contains(files.drop_last(), f, c);
        let x: int = choose|x: int| 0 <= x < rest.len() && rest[x] == c;
        assert((rest + own)[x] == c);
    }
}

/// In the model of several files, every struct of any file with a field
/// token that names a class declared in any of the files (before or after
/// it) ends with a connection stored under that token: the relationships of
/// every file are found, not only those of the last.
pub proof fn lemma_files_struct_field_association(
    files: Seq<FileSyntax>,
    f: int,
    i: int,
    fi: int,
    t: int,
)
    requires
        files_classes(files).len() <= usize::MAX,
        0 <= f < files.len(),
        0 <= i < files[f].items@.len(),
        files[f].items@[i] matches ItemSyntax::Struct { fields, .. } && 0 <= fi < fields@.len()
            && 0 <= t < fields@[fi].tokens@.len() && view_names(files_classes(files)).contains(
            fields@[fi].tokens@[t]@,
        ),
    ensures
        files[f].items@[i] matches ItemSyntax::Struct { ident, fields, .. } && {
            let map = names_map(view_names(files_classes(files)));
            &&& map.contains_key(ident@)
            &&& has_key(
                files_model(files)[map[ident@] as int].connections,
                fields@[fi].tokens@[t]@,
            )
        },
{
    let cs = files_classes(files);
    let names = view_names(cs);
    let map = names_map(names);
    let items = files[f].items@;
    lemma_names_map(names);
    assert(map_in_range(map, cs.len()));
    match items[i] {
        ItemSyntax::Struct { ident, fields, .. } => {
            let token = fields@[fi].tokens@[t]@;
            let c = item_class(items[i]).unwrap();
            lemma_item_classes_contains(items, i);
            lemma_files_classes_contains(files, f, c);
            let x: int = choose|x: int| 0 <= x < cs.len() && cs[x] == c;
            assert(names[x] == ident@);
            let y: int = choose|y: int| 0 <= y < names.len() && names[y] == token;
            assert(map.contains_key(names[y]));
            let pre = files.take(f);
            let mid = relate_files(cs, pre, map, names);
            lemma_relate_files_grows(cs, pre, map, names);
            assert(view_names(mid) =~= names) by {
                assert forall|j: int| 0 <= j < mid.len() implies #[trigger] view_names(mid)[j]
                    == names[j] by {
                    assert(mid[j].name == cs[j].name);
                }
            }
            lemma_struct_field_association(items, map, mid, i, fi, t);
            let upto = files.take(f + 1);
            assert(upto.drop_last() =~= pre);
            assert(upto.last() == files[f]);
            let reached = relate_files(cs, upto, map, names);
            assert(reached == apply_edits(mid, file_edits(items, map, names)));
            let o = map[ident@] as int;
            assert(has_key(reached[o].connections, token));
            lemma_relate_files_concat(cs, upto, files.skip(f + 1), map, names);
            assert(upto + files.skip(f + 1) =~= files);
            lemma_relate_files_grows(cs, upto, map, names);
            lemma_relate_files_grows(reached, files.skip(f + 1), map, names);
            assert(has_key(relate_files(reached, files.skip(f + 1), map, names)[o].connections, token));
        },
        _ => {},
    }
}

} // verus!

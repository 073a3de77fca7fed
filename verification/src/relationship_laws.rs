//! Laws of `find_relationships` that span its edits or several calls.
use vstd::prelude::*;

use crate::members::signature_function;
use crate::model::{
    visibility_of, has_key, lemma_add_connection_map, lemma_insert_connection_map, ClassView,
    ConnectionView, FunctionView, Relationship,
};
use crate::relationships::{
    apply_edit, apply_edits, body_edits, fields_edits, file_edits, impl_items_edits, item_edits,
    lemma_apply_edits_grows, lemma_stored_keys_stay, params_edits, token_edit, token_edits,
    trait_items_edits, view_names, EditView, TokenRule,
};
use crate::syntax::{
    texts, FieldSyntax, FnArgSyntax, ImplItemSyntax, ImplTraitSyntax, ItemSyntax, TokenNode,
    TraitItemSyntax,
};

verus! {

/// Each name in the map points to a class of that name.
pub open spec fn map_consistent(map: Map<Seq<char>, usize>, names: Seq<Seq<char>>) -> bool {
    forall|k: Seq<char>| #[trigger]
        map.contains_key(k) ==> map[k] < names.len() && names[map[k] as int] == k
}

/// The arrow `implementer <|-- trait` stored under the implementer's name.
pub open spec fn inheritance_arrow(implementer: Seq<char>, trait_name: Seq<char>) -> ConnectionView {
    ConnectionView {
        name_a: implementer,
        name_b: trait_name,
        relationship: Relationship::Inheritance,
    }
}

/// An edit that replaces connections stores the inheritance arrow of its key
/// into the class of a trait.
pub open spec fn inserts_inheritance(e: EditView, names: Seq<Seq<char>>) -> bool {
    match e {
        EditView::InsertConnection { class, key, connection } => connection == inheritance_arrow(
            key,
            names[class],
        ),
        _ => true,
    }
}

pub open spec fn all_insert_inheritance(es: Seq<EditView>, names: Seq<Seq<char>>) -> bool {
    forall|j: int| 0 <= j < es.len() ==> inserts_inheritance(#[trigger] es[j], names)
}

proof fn lemma_all_concat(a: Seq<EditView>, b: Seq<EditView>, names: Seq<Seq<char>>)
    requires
        all_insert_inheritance(a, names),
        all_insert_inheritance(b, names),
    ensures
        all_insert_inheritance(a + b, names),
{
    assert forall|j: int| 0 <= j < (a + b).len() implies inserts_inheritance(
        #[trigger] (a + b)[j],
        names,
    ) by {
        if j < a.len() {
            assert((a + b)[j] == a[j]);
        } else {
            assert((a + b)[j] == b[j - a.len()]);
        }
    }
}

proof fn lemma_token_edits_ok(
    tokens: Seq<Seq<char>>,
    rule: TokenRule,
    map: Map<Seq<char>, usize>,
    names: Seq<Seq<char>>,
)
    ensures
        all_insert_inheritance(token_edits(tokens, rule, map, names), names),
    decreases tokens.len(),
{
    if tokens.len() > 0 {
        lemma_token_edits_ok(tokens.drop_last(), rule, map, names);
    }
}

proof fn lemma_params_edits_ok(
    inputs: Seq<FnArgSyntax>,
    rule: TokenRule,
    map: Map<Seq<char>, usize>,
    names: Seq<Seq<char>>,
)
    ensures
        all_insert_inheritance(params_edits(inputs, rule, map, names), names),
    decreases inputs.len(),
{
    if inputs.len() > 0 {
        lemma_params_edits_ok(inputs.drop_last(), rule, map, names);
        let own = match inputs.last() {
            FnArgSyntax::Typed { tokens, .. } => token_edits(texts(tokens@), rule, map, names),
            FnArgSyntax::Receiver => Seq::empty(),
        };
        match inputs.last() {
            FnArgSyntax::Typed { tokens, .. } => {
                lemma_token_edits_ok(texts(tokens@), rule, map, names);
            },
            FnArgSyntax::Receiver => {},
        }
        lemma_all_concat(params_edits(inputs.drop_last(), rule, map, names), own, names);
    }
}

proof fn lemma_fields_edits_ok(
    fields: Seq<FieldSyntax>,
    rule: TokenRule,
    map: Map<Seq<char>, usize>,
    names: Seq<Seq<char>>,
)
    ensures
        all_insert_inheritance(fields_edits(fields, rule, map, names), names),
    decreases fields.len(),
{
    if fields.len() > 0 {
        lemma_fields_edits_ok(fields.drop_last(), rule, map, names);
        lemma_token_edits_ok(texts(fields.last().tokens@), rule, map, names);
        lemma_all_concat(
            fields_edits(fields.drop_last(), rule, map, names),
            token_edits(texts(fields.last().tokens@), rule, map, names),
            names,
        );
    }
}

proof fn lemma_body_edits_ok(
    nodes: Seq<TokenNode>,
    rule: TokenRule,
    map: Map<Seq<char>, usize>,
    names: Seq<Seq<char>>,
)
    ensures
        all_insert_inheritance(body_edits(nodes, rule, map, names), names),
    decreases nodes,
{
    if nodes.len() > 0 {
        let last = nodes.last();
        assert(decreases_to!(nodes => nodes.drop_last()));
        lemma_body_edits_ok(nodes.drop_last(), rule, map, names);
        let own = match last {
            TokenNode::Group(children) => body_edits(children@, rule, map, names),
            TokenNode::Leaf(t) => if map.contains_key(t@) {
                seq![token_edit(rule, t@, map, names)]
            } else {
                Seq::empty()
            },
        };
        match last {
            TokenNode::Group(children) => {
                assert(decreases_to!(nodes => last));
                lemma_body_edits_ok(children@, rule, map, names);
            },
            TokenNode::Leaf(t) => {},
        }
        lemma_all_concat(body_edits(nodes.drop_last(), rule, map, names), own, names);
        assert(body_edits(nodes, rule, map, names) == body_edits(nodes.drop_last(), rule, map, names)
            + own);
    }
}

proof fn lemma_trait_items_edits_ok(
    items: Seq<TraitItemSyntax>,
    from: Seq<char>,
    map: Map<Seq<char>, usize>,
    names: Seq<Seq<char>>,
)
    ensures
        all_insert_inheritance(trait_items_edits(items, from, map, names), names),
    decreases items.len(),
{
    if items.len() > 0 {
        lemma_trait_items_edits_ok(items.drop_last(), from, map, names);
        let own = match items.last() {
            TraitItemSyntax::Fn(sig) => params_edits(
                sig.inputs@,
                TokenRule::Parameter { from },
                map,
                names,
            ),
            TraitItemSyntax::Other => Seq::empty(),
        };
        match items.last() {
            TraitItemSyntax::Fn(sig) => {
                lemma_params_edits_ok(sig.inputs@, TokenRule::Parameter { from }, map, names);
            },
            TraitItemSyntax::Other => {},
        }
        lemma_all_concat(trait_items_edits(items.drop_last(), from, map, names), own, names);
    }
}

proof fn lemma_impl_items_edits_ok(
    items: Seq<ImplItemSyntax>,
    owner: int,
    from: Seq<char>,
    map: Map<Seq<char>, usize>,
    names: Seq<Seq<char>>,
)
    ensures
        all_insert_inheritance(impl_items_edits(items, owner, from, map, names), names),
    decreases items.len(),
{
    if items.len() > 0 {
        lemma_impl_items_edits_ok(items.drop_last(), owner, from, map, names);
        match items.last() {
            ImplItemSyntax::Fn { visibility, sig } => {
                let rule = TokenRule::MethodParameter { owner, from };
                lemma_params_edits_ok(sig.inputs@, rule, map, names);
                let head = impl_items_edits(items.drop_last(), owner, from, map, names);
                let f = EditView::AddFunction {
                    class: owner,
                    function: signature_function(visibility_of(visibility), sig),
                };
                lemma_all_concat(seq![f], params_edits(sig.inputs@, rule, map, names), names);
                lemma_all_concat(
                    head,
                    seq![f] + params_edits(sig.inputs@, rule, map, names),
                    names,
                );
            },
            ImplItemSyntax::Other => {
                lemma_all_concat(
                    impl_items_edits(items.drop_last(), owner, from, map, names),
                    Seq::empty(),
                    names,
                );
            },
        }
    }
}

} // verus!

verus! {

/// With the map consistent with the class names, every edit that replaces
/// connections stores an implementer's inheritance arrow into the trait's class.
pub proof fn lemma_file_edits_insert_inheritance(
    items: Seq<ItemSyntax>,
    map: Map<Seq<char>, usize>,
    names: Seq<Seq<char>>,
)
    requires
        map_consistent(map, names),
    ensures
        all_insert_inheritance(file_edits(items, map, names), names),
    decreases items.len(),
{
    if items.len() > 0 {
        lemma_file_edits_insert_inheritance(items.drop_last(), map, names);
        let item = items.last();
        match item {
            ItemSyntax::Struct { ident, fields, .. } => {
                if map.contains_key(ident@) {
                    lemma_fields_edits_ok(
                        fields@,
                        TokenRule::FieldType { owner: map[ident@] as int, from: ident@ },
                        map,
                        names,
                    );
                }
            },
            ItemSyntax::Trait { ident, items: its, .. } => {
                lemma_trait_items_edits_ok(its@, ident@, map, names);
            },
            ItemSyntax::Impl { trait_, self_ty, items: its } => {
                match trait_ {
                    ImplTraitSyntax::Inherent => {
                        if map.contains_key(self_ty@) {
                            lemma_impl_items_edits_ok(
                                its@,
                                map[self_ty@] as int,
                                self_ty@,
                                map,
                                names,
                            );
                        }
                    },
                    _ => {},
                }
            },
            ItemSyntax::Fn { sig, body, .. } => {
                lemma_params_edits_ok(
                    sig.inputs@,
                    TokenRule::Parameter { from: sig.ident@ },
                    map,
                    names,
                );
                lemma_body_edits_ok(body@, TokenRule::BodyUse { from: sig.ident@ }, map, names);
                lemma_all_concat(
                    params_edits(sig.inputs@, TokenRule::Parameter { from: sig.ident@ }, map, names),
                    body_edits(body@, TokenRule::BodyUse { from: sig.ident@ }, map, names),
                    names,
                );
            },
            _ => {},
        }
        lemma_all_concat(
            file_edits(items.drop_last(), map, names),
            item_edits(item, map, names),
            names,
        );
    }
}

/// Every key of `before` is kept in `after`, and a connection whose value
/// changed is the arrow from the key to the class (inheritance).
pub open spec fn only_inheritance_replaced(before: Seq<ClassView>, after: Seq<ClassView>) -> bool {
    &&& after.len() == before.len()
    &&& forall|i: int, k: Seq<char>|
        0 <= i < before.len() && #[trigger] before[i].connection_map().contains_key(k) ==> {
            &&& after[i].connection_map().contains_key(k)
            &&& after[i].connection_map()[k] != before[i].connection_map()[k]
                ==> after[i].connection_map()[k] == inheritance_arrow(k, before[i].name)
        }
}

proof fn lemma_one_edit_only_inheritance(cs: Seq<ClassView>, e: EditView)
    requires
        inserts_inheritance(e, view_names(cs)),
    ensures
        only_inheritance_replaced(cs, apply_edit(cs, e)),
{
    let after = apply_edit(cs, e);
    assert forall|i: int, k: Seq<char>|
        0 <= i < cs.len() && #[trigger] cs[i].connection_map().contains_key(k) implies {
        &&& after[i].connection_map().contains_key(k)
        &&& after[i].connection_map()[k] != cs[i].connection_map()[k]
            ==> after[i].connection_map()[k] == inheritance_arrow(k, cs[i].name)
    } by {
        match e {
            EditView::AddConnection { class, key, connection } => {
                if class == i {
                    lemma_add_connection_map(cs[i], key, connection);
                }
            },
            EditView::InsertConnection { class, key, connection } => {
                if class == i {
                    lemma_insert_connection_map(cs[i], key, connection);
                    assert(view_names(cs)[i] == cs[i].name);
                }
            },
            EditView::AddFunction { .. } => {},
        }
    }
}

/// Edits whose replacements are all inheritance arrows keep every key and
/// change a connection only into the inheritance arrow of its key.
pub proof fn lemma_edits_only_inheritance(cs: Seq<ClassView>, es: Seq<EditView>)
    requires
        all_insert_inheritance(es, view_names(cs)),
    ensures
        only_inheritance_replaced(cs, apply_edits(cs, es)),
    decreases es.len(),
{
    if es.len() > 0 {
        let mid = apply_edits(cs, es.drop_last());
        assert forall|j: int| 0 <= j < es.drop_last().len() implies inserts_inheritance(
            #[trigger] es.drop_last()[j],
            view_names(cs),
        ) by {
            assert(es.drop_last()[j] == es[j]);
        }
        lemma_edits_only_inheritance(cs, es.drop_last());
        lemma_apply_edits_grows(cs, es.drop_last());
        assert(view_names(mid) =~= view_names(cs)) by {
            assert forall|i: int| 0 <= i < mid.len() implies #[trigger] view_names(mid)[i]
                == view_names(cs)[i] by {
                assert(mid[i].name == cs[i].name);
            }
        }
        assert(inserts_inheritance(es[es.len() - 1], view_names(cs)));
        lemma_one_edit_only_inheritance(mid, es.last());
        let after = apply_edits(cs, es);
        assert forall|i: int, k: Seq<char>|
            0 <= i < cs.len() && #[trigger] cs[i].connection_map().contains_key(k) implies {
            &&& after[i].connection_map().contains_key(k)
            &&& after[i].connection_map()[k] != cs[i].connection_map()[k]
                ==> after[i].connection_map()[k] == inheritance_arrow(k, cs[i].name)
        } by {
            assert(mid[i].connection_map().contains_key(k));
            assert(mid[i].name == cs[i].name);
        }
    }
}

/// After `find_relationships` (with a map consistent with the class names),
/// every connection key a class had is still there, and a connection whose
/// value changed is now the arrow by which the key's type implements the
/// class's trait.
pub proof fn lemma_changed_connections_are_inheritance(
    items: Seq<ItemSyntax>,
    map: Map<Seq<char>, usize>,
    cs: Seq<ClassView>,
)
    requires
        map_consistent(map, view_names(cs)),
    ensures
        only_inheritance_replaced(cs, apply_edits(cs, file_edits(items, map, view_names(cs)))),
{
    lemma_file_edits_insert_inheritance(items, map, view_names(cs));
    lemma_edits_only_inheritance(cs, file_edits(items, map, view_names(cs)));
}

} // verus!

verus! {

/// The method lines that edits add to class `i`, in order.
pub open spec fn added_functions(es: Seq<EditView>, i: int) -> Seq<FunctionView>
    decreases es.len(),
{
    if es.len() == 0 {
        Seq::empty()
    } else {
        let rest = added_functions(es.drop_last(), i);
        match es.last() {
            EditView::AddFunction { class, function } => if class == i {
                rest.push(function)
            } else {
                rest
            },
            _ => rest,
        }
    }
}

proof fn lemma_functions_added(cs: Seq<ClassView>, es: Seq<EditView>, i: int)
    requires
        0 <= i < cs.len(),
    ensures
        apply_edits(cs, es)[i].functions == cs[i].functions + added_functions(es, i),
    decreases es.len(),
{
    if es.len() > 0 {
        lemma_functions_added(cs, es.drop_last(), i);
        lemma_apply_edits_grows(cs, es.drop_last());
        let mid = apply_edits(cs, es.drop_last());
        match es.last() {
            EditView::AddFunction { class, function } => {
                if class == i {
                    assert(apply_edits(cs, es)[i].functions =~= cs[i].functions + added_functions(
                        es,
                        i,
                    ));
                }
            },
            _ => {},
        }
    } else {
        assert(cs[i].functions + Seq::<FunctionView>::empty() =~= cs[i].functions);
    }
}

/// The connection that the last edit replacing key `k` of class `c` stores, if any.
pub open spec fn last_insert(es: Seq<EditView>, c: int, k: Seq<char>) -> Option<ConnectionView>
    decreases es.len(),
{
    if es.len() == 0 {
        None
    } else {
        match es.last() {
            EditView::InsertConnection { class, key, connection } => if class == c && key == k {
                Some(connection)
            } else {
                last_insert(es.drop_last(), c, k)
            },
            _ => last_insert(es.drop_last(), c, k),
        }
    }
}

/// An entry with the connection of the last replacing edit of its key, if any.
pub open spec fn settle_entry(
    e: (Seq<char>, ConnectionView),
    es: Seq<EditView>,
    c: int,
) -> (Seq<char>, ConnectionView) {
    match last_insert(es, c, e.0) {
        Some(x) => (e.0, x),
        None => e,
    }
}

/// Every key that an edit stores is already present in its class.
pub open spec fn keys_present(s: Seq<ClassView>, es: Seq<EditView>) -> bool {
    forall|j: int|
        0 <= j < es.len() ==> match crate::relationships::stored_key(#[trigger] es[j]) {
            Some((c, k)) => 0 <= c < s.len() ==> has_key(s[c].connections, k),
            None => true,
        }
}

proof fn lemma_last_insert_witness(es: Seq<EditView>, c: int, k: Seq<char>)
    requires
        last_insert(es, c, k) is Some,
    ensures
        exists|j: int|
            0 <= j < es.len() && #[trigger] es[j] == (EditView::InsertConnection {
                class: c,
                key: k,
                connection: last_insert(es, c, k).unwrap(),
            }),
    decreases es.len(),
{
    let p = es.drop_last();
    match es.last() {
        EditView::InsertConnection { class, key, connection } => {
            if class == c && key == k {
                assert(es[es.len() - 1] == es.last());
            } else {
                lemma_last_insert_witness(p, c, k);
                let j: int = choose|j: int|
                    0 <= j < p.len() && #[trigger] p[j] == (EditView::InsertConnection {
                        class: c,
                        key: k,
                        connection: last_insert(p, c, k).unwrap(),
                    });
                assert(es[j] == p[j]);
            }
        },
        _ => {
            lemma_last_insert_witness(p, c, k);
            let j: int = choose|j: int|
                0 <= j < p.len() && #[trigger] p[j] == (EditView::InsertConnection {
                    class: c,
                    key: k,
                    connection: last_insert(p, c, k).unwrap(),
                });
            assert(es[j] == p[j]);
        },
    }
}

/// When every key the edits store is already present, the edits leave each
/// entry in place and give it the connection of the last edit replacing its key.
proof fn lemma_present_keys_effect(s: Seq<ClassView>, es: Seq<EditView>, c: int)
    requires
        keys_present(s, es),
        0 <= c < s.len(),
    ensures
        apply_edits(s, es)[c].connections == s[c].connections.map_values(
            |e: (Seq<char>, ConnectionView)| settle_entry(e, es, c),
        ),
    decreases es.len(),
{
    let conns = s[c].connections;
    if es.len() == 0 {
        assert(conns.map_values(|e: (Seq<char>, ConnectionView)| settle_entry(e, es, c)) =~= conns);
    } else {
        let p = es.drop_last();
        assert forall|j: int| 0 <= j < p.len() implies match crate::relationships::stored_key(
            #[trigger] p[j],
        ) {
            Some((c2, k)) => 0 <= c2 < s.len() ==> has_key(s[c2].connections, k),
            None => true,
        } by {
            assert(p[j] == es[j]);
        }
        lemma_present_keys_effect(s, p, c);
        lemma_apply_edits_grows(s, p);
        let mid = apply_edits(s, p);
        let mc = mid[c].connections;
        assert(mc.len() == conns.len());
        let e = es.last();
        assert(match crate::relationships::stored_key(es[es.len() - 1]) {
            Some((c2, k)) => 0 <= c2 < s.len() ==> has_key(s[c2].connections, k),
            None => true,
        });
        match e {
            EditView::AddConnection { class, key, connection } => {
                if class == c {
                    let i: int = choose|i: int| 0 <= i < conns.len() && #[trigger] conns[i].0 == key;
                    assert(mc[i].0 == key);
                }
            },
            EditView::InsertConnection { class, key, connection } => {
                if class == c {
                    let i: int = choose|i: int| 0 <= i < conns.len() && #[trigger] conns[i].0 == key;
                    assert(mc[i].0 == key);
                }
            },
            _ => {},
        }
        assert(apply_edits(s, es)[c].connections =~= conns.map_values(
            |x: (Seq<char>, ConnectionView)| settle_entry(x, es, c),
        ));
    }
}

/// After edits, every entry whose key some edit replaced holds the
/// connection of the last such edit.
proof fn lemma_last_inserts_hold(s: Seq<ClassView>, es: Seq<EditView>, c: int)
    requires
        0 <= c < s.len(),
    ensures
        forall|i: int|
            0 <= i < apply_edits(s, es)[c].connections.len() ==> #[trigger] settle_entry(
                apply_edits(s, es)[c].connections[i],
                es,
                c,
            ) == apply_edits(s, es)[c].connections[i],
    decreases es.len(),
{
    lemma_apply_edits_grows(s, es);
    if es.len() > 0 {
        let p = es.drop_last();
        lemma_last_inserts_hold(s, p, c);
        lemma_apply_edits_grows(s, p);
        let mid = apply_edits(s, p);
        let mc = mid[c].connections;
        let ac = apply_edits(s, es)[c].connections;
        assert forall|i: int| 0 <= i < ac.len() implies #[trigger] settle_entry(ac[i], es, c)
            == ac[i] by {
            match es.last() {
                EditView::AddConnection { class, key, connection } => {
                    if class == c && !has_key(mc, key) && i == mc.len() {
                        if last_insert(p, c, key) is Some {
                            lemma_last_insert_witness(p, c, key);
                            let j: int = choose|j: int|
                                0 <= j < p.len() && #[trigger] p[j] == (EditView::InsertConnection {
                                    class: c,
                                    key,
                                    connection: last_insert(p, c, key).unwrap(),
                                });
                            lemma_stored_keys_stay(s, p, j);
                        }
                    } else if i < mc.len() {
                        assert(settle_entry(mc[i], p, c) == mc[i]);
                    }
                },
                EditView::InsertConnection { class, key, connection } => {
                    if i < mc.len() {
                        assert(settle_entry(mc[i], p, c) == mc[i]);
                    }
                },
                _ => {
                    assert(settle_entry(mc[i], p, c) == mc[i]);
                },
            }
        }
    }
}

/// A second `find_relationships` with the same file and map keeps every
/// class's connections, and appends the methods of the inherent impls once more.
pub proof fn lemma_second_call(items: Seq<ItemSyntax>, map: Map<Seq<char>, usize>, c0: Seq<ClassView>)
    ensures
        ({
            let c1 = apply_edits(c0, file_edits(items, map, view_names(c0)));
            let c2 = apply_edits(c1, file_edits(items, map, view_names(c1)));
            &&& view_names(c1) == view_names(c0)
            &&& c2.len() == c1.len()
            &&& forall|i: int|
                0 <= i < c1.len() ==> (#[trigger] c2[i]).connections == c1[i].connections
                    && c2[i].functions == c1[i].functions + c1[i].functions.skip(
                    c0[i].functions.len() as int,
                )
        }),
{
    let es = file_edits(items, map, view_names(c0));
    let c1 = apply_edits(c0, es);
    lemma_apply_edits_grows(c0, es);
    assert(view_names(c1) =~= view_names(c0)) by {
        assert forall|i: int| 0 <= i < c1.len() implies #[trigger] view_names(c1)[i]
            == view_names(c0)[i] by {
            assert(c1[i].name == c0[i].name);
        }
    }
    assert forall|j: int| 0 <= j < es.len() implies match crate::relationships::stored_key(
        #[trigger] es[j],
    ) {
        Some((c, k)) => 0 <= c < c1.len() ==> has_key(c1[c].connections, k),
        None => true,
    } by {
        if let Some((c, k)) = crate::relationships::stored_key(es[j]) {
            if 0 <= c < c1.len() {
                lemma_stored_keys_stay(c0, es, j);
            }
        }
    }
    let c2 = apply_edits(c1, es);
    lemma_apply_edits_grows(c1, es);
    assert forall|i: int| 0 <= i < c1.len() implies (#[trigger] c2[i]).connections
        == c1[i].connections && c2[i].functions == c1[i].functions + c1[i].functions.skip(
        c0[i].functions.len() as int,
    ) by {
        lemma_present_keys_effect(c1, es, i);
        lemma_last_inserts_hold(c0, es, i);
        assert(c1[i].connections.map_values(
            |e: (Seq<char>, ConnectionView)| settle_entry(e, es, i),
        ) =~= c1[i].connections);
        lemma_functions_added(c0, es, i);
        lemma_functions_added(c1, es, i);
        assert(c1[i].functions.skip(c0[i].functions.len() as int) =~= added_functions(es, i));
    }
}

} // verus!

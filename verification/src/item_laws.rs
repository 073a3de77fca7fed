//! What each kind of item contributes to the classes, stated over the
//! classes before and after, for every input.
use vstd::prelude::*;

use crate::members::signature_function;
use crate::model::{
    has_key, lemma_add_connection_map, lemma_connection_map_keys, lemma_insert_connection_map,
    visibility_of, ClassView, ConnectionView, FunctionView, Relationship,
};
use crate::relationships::{
    apply_edit, apply_edits, body_edits, file_edits, impl_items_edits, item_edits,
    lemma_apply_edits_grows, lemma_stored_keys_stay, lemma_token_edits_contains, map_in_range,
    params_edits, stored_key, token_edit, token_edits, view_names, EditView, TokenRule,
};
use crate::syntax::{texts, FnArgSyntax, ImplItemSyntax, ImplTraitSyntax, ItemSyntax, TokenNode};

verus! {

/// The connection an edit stores, if it stores one.
pub open spec fn stored_connection(e: EditView) -> Option<ConnectionView> {
    match e {
        EditView::AddConnection { connection, .. } => Some(connection),
        EditView::InsertConnection { connection, .. } => Some(connection),
        EditView::AddFunction { .. } => None,
    }
}

/// Every edit satisfies `q`.
pub open spec fn all_edits(es: Seq<EditView>, q: spec_fn(EditView) -> bool) -> bool {
    forall|x: int| 0 <= x < es.len() ==> q(#[trigger] es[x])
}

proof fn lemma_all_edits_concat(a: Seq<EditView>, b: Seq<EditView>, q: spec_fn(EditView) -> bool)
    requires
        all_edits(a, q),
        all_edits(b, q),
    ensures
        all_edits(a + b, q),
{
    assert forall|x: int| 0 <= x < (a + b).len() implies q(#[trigger] (a + b)[x]) by {
        if x < a.len() {
            assert((a + b)[x] == a[x]);
        } else {
            assert((a + b)[x] == b[x - a.len()]);
        }
    }
}

/// Text of token `q` of typed parameter `p`, if there is one.
pub open spec fn param_token(inputs: Seq<FnArgSyntax>, p: int, q: int) -> Option<Seq<char>> {
    if 0 <= p < inputs.len() {
        match inputs[p] {
            FnArgSyntax::Typed { tokens, .. } => if 0 <= q < tokens@.len() {
                Some(tokens@[q]@)
            } else {
                None
            },
            FnArgSyntax::Receiver => None,
        }
    } else {
        None
    }
}

/// Text of token `q` of typed parameter `p` of method `j` of an impl, if there is one.
pub open spec fn impl_token(items: Seq<ImplItemSyntax>, j: int, p: int, q: int) -> Option<
    Seq<char>,
> {
    if 0 <= j < items.len() {
        match items[j] {
            ImplItemSyntax::Fn { sig, .. } => param_token(sig.inputs@, p, q),
            ImplItemSyntax::Other => None,
        }
    } else {
        None
    }
}

proof fn lemma_token_edits_all(
    ts: Seq<Seq<char>>,
    rule: TokenRule,
    map: Map<Seq<char>, usize>,
    names: Seq<Seq<char>>,
    q: spec_fn(EditView) -> bool,
)
    requires
        forall|i: int|
            0 <= i < ts.len() && map.contains_key(#[trigger] ts[i]) ==> q(
                token_edit(rule, ts[i], map, names),
            ),
    ensures
        all_edits(token_edits(ts, rule, map, names), q),
    decreases ts.len(),
{
    if ts.len() > 0 {
        let p = ts.drop_last();
        assert forall|i: int| 0 <= i < p.len() && map.contains_key(#[trigger] p[i]) implies q(
            token_edit(rule, p[i], map, names),
        ) by {
            assert(p[i] == ts[i]);
        }
        lemma_token_edits_all(p, rule, map, names, q);
        if map.contains_key(ts.last()) {
            assert(q(token_edit(rule, ts[ts.len() - 1], map, names)));
            lemma_all_edits_concat(
                token_edits(p, rule, map, names),
                seq![token_edit(rule, ts.last(), map, names)],
                q,
            );
            assert(token_edits(p, rule, map, names).push(token_edit(rule, ts.last(), map, names))
                =~= token_edits(p, rule, map, names) + seq![
                token_edit(rule, ts.last(), map, names),
            ]);
        }
    }
}

proof fn lemma_params_edits_all(
    inputs: Seq<FnArgSyntax>,
    rule: TokenRule,
    map: Map<Seq<char>, usize>,
    names: Seq<Seq<char>>,
    q: spec_fn(EditView) -> bool,
)
    requires
        forall|p: int, k: int|
            #[trigger] param_token(inputs, p, k) is Some && map.contains_key(
                param_token(inputs, p, k).unwrap(),
            ) ==> q(token_edit(rule, param_token(inputs, p, k).unwrap(), map, names)),
    ensures
        all_edits(params_edits(inputs, rule, map, names), q),
    decreases inputs.len(),
{
    if inputs.len() > 0 {
        let pre = inputs.drop_last();
        assert forall|p: int, k: int|
            #[trigger] param_token(pre, p, k) is Some && map.contains_key(
                param_token(pre, p, k).unwrap(),
            ) implies q(token_edit(rule, param_token(pre, p, k).unwrap(), map, names)) by {
            assert(param_token(inputs, p, k) == param_token(pre, p, k));
        }
        lemma_params_edits_all(pre, rule, map, names, q);
        let last = inputs.len() - 1;
        match inputs.last() {
            FnArgSyntax::Typed { tokens, .. } => {
                let ts = texts(tokens@);
                assert forall|i: int| 0 <= i < ts.len() && map.contains_key(#[trigger] ts[i]) implies q(
                    token_edit(rule, ts[i], map, names),
                ) by {
                    assert(param_token(inputs, last, i) == Some(ts[i]));
                }
                lemma_token_edits_all(ts, rule, map, names, q);
                lemma_all_edits_concat(
                    params_edits(pre, rule, map, names),
                    token_edits(ts, rule, map, names),
                    q,
                );
            },
            FnArgSyntax::Receiver => {
                lemma_all_edits_concat(params_edits(pre, rule, map, names), Seq::empty(), q);
            },
        }
    }
}

proof fn lemma_body_edits_all(
    nodes: Seq<TokenNode>,
    rule: TokenRule,
    map: Map<Seq<char>, usize>,
    names: Seq<Seq<char>>,
    q: spec_fn(EditView) -> bool,
)
    requires
        forall|t: Seq<char>| #[trigger] map.contains_key(t) ==> q(token_edit(rule, t, map, names)),
    ensures
        all_edits(body_edits(nodes, rule, map, names), q),
    decreases nodes,
{
    if nodes.len() > 0 {
        let last = nodes.last();
        assert(decreases_to!(nodes => nodes.drop_last()));
        lemma_body_edits_all(nodes.drop_last(), rule, map, names, q);
        let own = match last {
            TokenNode::Group(children) => body_edits(children@, rule, map, names),
            TokenNode::Leaf(t) => if map.contains_key(t@) {
                seq![token_edit(rule, t@, map, names)]
            } else {
                Seq::empty()
            },
        };
        match last {
            TokenNode::Group(children) => {
                assert(decreases_to!(nodes => last));
                lemma_body_edits_all(children@, rule, map, names, q);
            },
            TokenNode::Leaf(t) => {},
        }
        lemma_all_edits_concat(body_edits(nodes.drop_last(), rule, map, names), own, q);
        assert(body_edits(nodes, rule, map, names) == body_edits(nodes.drop_last(), rule, map, names)
            + own);
    }
}

proof fn lemma_params_edits_contains(
    inputs: Seq<FnArgSyntax>,
    rule: TokenRule,
    map: Map<Seq<char>, usize>,
    names: Seq<Seq<char>>,
    p: int,
    k: int,
)
    requires
        param_token(inputs, p, k) is Some,
        map.contains_key(param_token(inputs, p, k).unwrap()),
    ensures
        params_edits(inputs, rule, map, names).contains(
            token_edit(rule, param_token(inputs, p, k).unwrap(), map, names),
        ),
    decreases inputs.len(),
{
    let t = param_token(inputs, p, k).unwrap();
    let e = token_edit(rule, t, map, names);
    let pre = inputs.drop_last();
    let rest = params_edits(pre, rule, map, names);
    let own = match inputs.last() {
        FnArgSyntax::Typed { tokens, .. } => token_edits(texts(tokens@), rule, map, names),
        FnArgSyntax::Receiver => Seq::empty(),
    };
    assert(params_edits(inputs, rule, map, names) == rest + own);
    if p == inputs.len() - 1 {
        match inputs.last() {
            FnArgSyntax::Typed { tokens, .. } => {
                assert(texts(tokens@)[k] == t);
                lemma_token_edits_contains(texts(tokens@), rule, map, names, k);
                let x: int = choose|x: int| 0 <= x < own.len() && own[x] == e;
                assert((rest + own)[rest.len() + x] == e);
            },
            FnArgSyntax::Receiver => {},
        }
    } else {
        assert(param_token(pre, p, k) == param_token(inputs, p, k));
        lemma_params_edits_contains(pre, rule, map, names, p, k);
        let x: int = choose|x: int| 0 <= x < rest.len() && rest[x] == e;
        assert((rest + own)[x] == e);
    }
}

/// Under edits that each store, under key `k` of class `o`, only a
/// connection satisfying `q`, a class that had no connection under `k`
/// ends with none, or with one satisfying `q`.
proof fn lemma_value_under_key(
    cs: Seq<ClassView>,
    es: Seq<EditView>,
    o: int,
    k: Seq<char>,
    q: spec_fn(ConnectionView) -> bool,
)
    requires
        0 <= o < cs.len(),
        !cs[o].connection_map().contains_key(k),
        forall|x: int|
            0 <= x < es.len() && #[trigger] stored_key(es[x]) == Some((o, k)) ==> q(
                stored_connection(es[x]).unwrap(),
            ),
    ensures
        apply_edits(cs, es)[o].connection_map().contains_key(k) ==> q(
            apply_edits(cs, es)[o].connection_map()[k],
        ),
    decreases es.len(),
{
    if es.len() > 0 {
        let p = es.drop_last();
        assert forall|x: int|
            0 <= x < p.len() && #[trigger] stored_key(p[x]) == Some((o, k)) implies q(
                stored_connection(p[x]).unwrap(),
            ) by {
            assert(p[x] == es[x]);
        }
        lemma_value_under_key(cs, p, o, k, q);
        lemma_apply_edits_grows(cs, p);
        let mid = apply_edits(cs, p);
        let e = es.last();
        let last = es.len() - 1;
        assert(e == es[last]);
        assert(apply_edits(cs, es) == apply_edit(mid, e));
        let after = apply_edit(mid, e);
        match e {
            EditView::AddConnection { class, key, connection } => {
                if class == o {
                    lemma_add_connection_map(mid[o], key, connection);
                    if key == k && !mid[o].connection_map().contains_key(k) {
                        assert(stored_key(es[last]) == Some((o, k)));
                        assert(after[o].connection_map()[k] == connection);
                    }
                } else {
                    assert(after[o] == mid[o]);
                }
            },
            EditView::InsertConnection { class, key, connection } => {
                if class == o {
                    lemma_insert_connection_map(mid[o], key, connection);
                    if key == k {
                        assert(stored_key(es[last]) == Some((o, k)));
                        assert(after[o].connection_map()[k] == connection);
                    }
                } else {
                    assert(after[o] == mid[o]);
                }
            },
            EditView::AddFunction { class, function } => {
                assert(after[o].connections == mid[o].connections);
            },
        }
    }
}

/// Edits that store something under key `k` of class `o`, each a
/// connection satisfying `q`, leave class `o` (which had no connection under
/// `k`) with a connection under `k` that satisfies `q`.
proof fn lemma_stored_value(
    cs: Seq<ClassView>,
    es: Seq<EditView>,
    o: int,
    k: Seq<char>,
    q: spec_fn(ConnectionView) -> bool,
    j: int,
)
    requires
        0 <= o < cs.len(),
        !cs[o].connection_map().contains_key(k),
        0 <= j < es.len(),
        stored_key(es[j]) == Some((o, k)),
        forall|x: int|
            0 <= x < es.len() && #[trigger] stored_key(es[x]) == Some((o, k)) ==> q(
                stored_connection(es[x]).unwrap(),
            ),
    ensures
        apply_edits(cs, es)[o].connection_map().contains_key(k),
        q(apply_edits(cs, es)[o].connection_map()[k]),
{
    lemma_value_under_key(cs, es, o, k, q);
    lemma_stored_keys_stay(cs, es, j);
    lemma_connection_map_keys(apply_edits(cs, es)[o].connections, k);
}

/// The arrow from a free function to a class it depends on.
pub open spec fn function_dependency(function: Seq<char>, class_name: Seq<char>) -> ConnectionView {
    ConnectionView { name_a: function, name_b: class_name, relationship: Relationship::Dependency }
}

/// A free function `fun` one of whose typed parameters has a token naming a
/// mapped class `C` leaves `C`'s class with a connection under `C`'s name;
/// when that key was free before, the connection is `fun ..> C`.
pub proof fn lemma_free_function_parameter_dependency(
    item: ItemSyntax,
    map: Map<Seq<char>, usize>,
    cs: Seq<ClassView>,
    p: int,
    k: int,
)
    requires
        map_in_range(map, cs.len()),
        item matches ItemSyntax::Fn { sig, .. } && param_token(sig.inputs@, p, k) is Some
            && map.contains_key(param_token(sig.inputs@, p, k).unwrap()),
    ensures
        item matches ItemSyntax::Fn { sig, .. } && ({
            let c = map[param_token(sig.inputs@, p, k).unwrap()] as int;
            let after = apply_edits(cs, file_edits(seq![item], map, view_names(cs)));
            &&& has_key(after[c].connections, cs[c].name)
            &&& !cs[c].connection_map().contains_key(cs[c].name) ==> after[c].connection_map()[cs[c].name]
                == function_dependency(sig.ident@, cs[c].name)
        }),
{
    let names = view_names(cs);
    match item {
        ItemSyntax::Fn { sig, body, .. } => {
            let t = param_token(sig.inputs@, p, k).unwrap();
            let c = map[t] as int;
            let from = sig.ident@;
            let pr = TokenRule::Parameter { from };
            let br = TokenRule::BodyUse { from };
            let pe = params_edits(sig.inputs@, pr, map, names);
            let be = body_edits(body@, br, map, names);
            assert(seq![item].drop_last() =~= Seq::<ItemSyntax>::empty());
            assert(seq![item].last() == item);
            let es = file_edits(seq![item], map, names);
            assert(item_edits(item, map, names) == pe + be);
            assert(es == file_edits(Seq::<ItemSyntax>::empty(), map, names) + item_edits(item, map, names));
            assert(es =~= pe + be);
            let q = |e: EditView|
                match e {
                    EditView::AddConnection { class, key, connection } => 0 <= class < names.len()
                        && connection == function_dependency(from, names[class]),
                    _ => false,
                };
            assert forall|pp: int, kk: int|
                #[trigger] param_token(sig.inputs@, pp, kk) is Some && map.contains_key(
                    param_token(sig.inputs@, pp, kk).unwrap(),
                ) implies q(
                token_edit(pr, param_token(sig.inputs@, pp, kk).unwrap(), map, names),
            ) by {}
            lemma_params_edits_all(sig.inputs@, pr, map, names, q);
            assert forall|tt: Seq<char>| #[trigger] map.contains_key(tt) implies q(
                token_edit(br, tt, map, names),
            ) by {}
            lemma_body_edits_all(body@, br, map, names, q);
            lemma_all_edits_concat(pe, be, q);
            lemma_params_edits_contains(sig.inputs@, pr, map, names, p, k);
            let e = token_edit(pr, t, map, names);
            let x: int = choose|x: int| 0 <= x < pe.len() && pe[x] == e;
            assert(es[x] == e);
            assert(names[c] == cs[c].name);
            lemma_stored_keys_stay(cs, es, x);
            if !cs[c].connection_map().contains_key(cs[c].name) {
                let qc = |conn: ConnectionView| conn == function_dependency(from, cs[c].name);
                assert forall|y: int|
                    0 <= y < es.len() && #[trigger] stored_key(es[y]) == Some((c, cs[c].name))
                        implies qc(stored_connection(es[y]).unwrap()) by {
                    assert(q(es[y]));
                }
                lemma_stored_value(cs, es, c, cs[c].name, qc, x);
            }
        },
        _ => {},
    }
}

/// Some typed parameter of some method of an impl has a token with text `t`.
pub open spec fn is_impl_token(items: Seq<ImplItemSyntax>, t: Seq<char>) -> bool {
    exists|j: int, p: int, k: int| #[trigger] impl_token(items, j, p, k) == Some(t)
}

/// Every parameter token of the impl's methods that names a class is `t`.
pub open spec fn only_mapped_impl_token(
    items: Seq<ImplItemSyntax>,
    map: Map<Seq<char>, usize>,
    t: Seq<char>,
) -> bool {
    forall|j: int, p: int, k: int|
        #[trigger] impl_token(items, j, p, k) is Some && map.contains_key(
            impl_token(items, j, p, k).unwrap(),
        ) ==> impl_token(items, j, p, k).unwrap() == t
}

proof fn lemma_impl_items_edits_all(
    items: Seq<ImplItemSyntax>,
    owner: int,
    from: Seq<char>,
    map: Map<Seq<char>, usize>,
    names: Seq<Seq<char>>,
    q: spec_fn(EditView) -> bool,
)
    requires
        forall|f: FunctionView| #[trigger] q(EditView::AddFunction { class: owner, function: f }),
        forall|j: int, p: int, k: int|
            #[trigger] impl_token(items, j, p, k) is Some && map.contains_key(
                impl_token(items, j, p, k).unwrap(),
            ) ==> q(
                token_edit(
                    TokenRule::MethodParameter { owner, from },
                    impl_token(items, j, p, k).unwrap(),
                    map,
                    names,
                ),
            ),
    ensures
        all_edits(impl_items_edits(items, owner, from, map, names), q),
    decreases items.len(),
{
    if items.len() > 0 {
        let pre = items.drop_last();
        let rule = TokenRule::MethodParameter { owner, from };
        assert forall|j: int, p: int, k: int|
            #[trigger] impl_token(pre, j, p, k) is Some && map.contains_key(
                impl_token(pre, j, p, k).unwrap(),
            ) implies q(token_edit(rule, impl_token(pre, j, p, k).unwrap(), map, names)) by {
            assert(impl_token(items, j, p, k) == impl_token(pre, j, p, k));
        }
        lemma_impl_items_edits_all(pre, owner, from, map, names, q);
        let rest = impl_items_edits(pre, owner, from, map, names);
        let last = items.len() - 1;
        match items.last() {
            ImplItemSyntax::Fn { visibility, sig } => {
                let add = seq![
                    EditView::AddFunction {
                        class: owner,
                        function: signature_function(visibility_of(visibility), sig),
                    },
                ];
                assert(q(add[0]));
                assert(all_edits(add, q));
                assert forall|pp: int, kk: int|
                    #[trigger] param_token(sig.inputs@, pp, kk) is Some && map.contains_key(
                        param_token(sig.inputs@, pp, kk).unwrap(),
                    ) implies q(
                    token_edit(rule, param_token(sig.inputs@, pp, kk).unwrap(), map, names),
                ) by {
                    assert(impl_token(items, last, pp, kk) == param_token(sig.inputs@, pp, kk));
                }
                lemma_params_edits_all(sig.inputs@, rule, map, names, q);
                let pe = params_edits(sig.inputs@, rule, map, names);
                lemma_all_edits_concat(add, pe, q);
                lemma_all_edits_concat(rest, add + pe, q);
            },
            ImplItemSyntax::Other => {
                lemma_all_edits_concat(rest, Seq::empty(), q);
            },
        }
    }
}

proof fn lemma_impl_items_edits_contains(
    items: Seq<ImplItemSyntax>,
    owner: int,
    from: Seq<char>,
    map: Map<Seq<char>, usize>,
    names: Seq<Seq<char>>,
    j: int,
    p: int,
    k: int,
)
    requires
        impl_token(items, j, p, k) is Some,
        map.contains_key(impl_token(items, j, p, k).unwrap()),
    ensures
        impl_items_edits(items, owner, from, map, names).contains(
            token_edit(
                TokenRule::MethodParameter { owner, from },
                impl_token(items, j, p, k).unwrap(),
                map,
                names,
            ),
        ),
    decreases items.len(),
{
    let rule = TokenRule::MethodParameter { owner, from };
    let t = impl_token(items, j, p, k).unwrap();
    let e = token_edit(rule, t, map, names);
    let pre = items.drop_last();
    let rest = impl_items_edits(pre, owner, from, map, names);
    if j == items.len() - 1 {
        match items.last() {
            ImplItemSyntax::Fn { visibility, sig } => {
                let add = seq![
                    EditView::AddFunction {
                        class: owner,
                        function: signature_function(visibility_of(visibility), sig),
                    },
                ];
                let pe = params_edits(sig.inputs@, rule, map, names);
                lemma_params_edits_contains(sig.inputs@, rule, map, names, p, k);
                let x: int = choose|x: int| 0 <= x < pe.len() && pe[x] == e;
                assert((rest + (add + pe))[rest.len() + 1 + x] == e);
            },
            ImplItemSyntax::Other => {},
        }
    } else {
        assert(impl_token(pre, j, p, k) == impl_token(items, j, p, k));
        lemma_impl_items_edits_contains(pre, owner, from, map, names, j, p, k);
        let x: int = choose|x: int| 0 <= x < rest.len() && rest[x] == e;
        let own = impl_items_edits(items, owner, from, map, names);
        assert(own == rest + match items.last() {
            ImplItemSyntax::Fn { visibility, sig } => seq![
                EditView::AddFunction {
                    class: owner,
                    function: signature_function(visibility_of(visibility), sig),
                },
            ] + params_edits(sig.inputs@, rule, map, names),
            ImplItemSyntax::Other => Seq::empty(),
        });
        assert(own[x] == e);
    }
}

/// A method of an inherent impl of a mapped type `T`, one of whose typed
/// parameters has a token naming a mapped class, leaves `T`'s class with a
/// connection under `T`'s class name; when that key was free before, the
/// connection is a dependency from `T` to a class named by a parameter token
/// of one of the impl's methods.
pub proof fn lemma_method_parameter_dependency(
    item: ItemSyntax,
    map: Map<Seq<char>, usize>,
    cs: Seq<ClassView>,
    j: int,
    p: int,
    k: int,
)
    requires
        map_in_range(map, cs.len()),
        item matches ItemSyntax::Impl { trait_: ImplTraitSyntax::Inherent, self_ty, items }
            && map.contains_key(self_ty@) && impl_token(items@, j, p, k) is Some
            && map.contains_key(impl_token(items@, j, p, k).unwrap()),
    ensures
        item matches ItemSyntax::Impl { self_ty, items, .. } && ({
            let o = map[self_ty@] as int;
            let after = apply_edits(cs, file_edits(seq![item], map, view_names(cs)));
            &&& has_key(after[o].connections, cs[o].name)
            &&& !cs[o].connection_map().contains_key(cs[o].name) ==> {
                let conn = after[o].connection_map()[cs[o].name];
                &&& conn.name_a == self_ty@
                &&& conn.relationship == Relationship::Dependency
                &&& is_impl_token(items@, conn.name_b)
                &&& map.contains_key(conn.name_b)
                &&& only_mapped_impl_token(items@, map, impl_token(items@, j, p, k).unwrap())
                    ==> conn.name_b == impl_token(items@, j, p, k).unwrap()
            }
        }),
{
    let names = view_names(cs);
    match item {
        ItemSyntax::Impl { trait_, self_ty, items } => {
            let o = map[self_ty@] as int;
            let from = self_ty@;
            let rule = TokenRule::MethodParameter { owner: o, from };
            let t = impl_token(items@, j, p, k).unwrap();
            assert(seq![item].drop_last() =~= Seq::<ItemSyntax>::empty());
            assert(seq![item].last() == item);
            let es = file_edits(seq![item], map, names);
            let ie = impl_items_edits(items@, o, from, map, names);
            assert(item_edits(item, map, names) == ie);
            assert(es == file_edits(Seq::<ItemSyntax>::empty(), map, names) + item_edits(item, map, names));
            assert(es =~= ie);
            let q = |e: EditView|
                match e {
                    EditView::AddFunction { .. } => true,
                    EditView::AddConnection { class, key, connection } => connection.name_a == from
                        && connection.relationship == Relationship::Dependency && is_impl_token(
                        items@,
                        connection.name_b,
                    ) && map.contains_key(connection.name_b),
                    _ => false,
                };
            assert forall|jj: int, pp: int, kk: int|
                #[trigger] impl_token(items@, jj, pp, kk) is Some && map.contains_key(
                    impl_token(items@, jj, pp, kk).unwrap(),
                ) implies q(
                token_edit(rule, impl_token(items@, jj, pp, kk).unwrap(), map, names),
            ) by {
                let tt = impl_token(items@, jj, pp, kk).unwrap();
                assert(impl_token(items@, jj, pp, kk) == Some(tt));
                assert(is_impl_token(items@, tt));
            }
            lemma_impl_items_edits_all(items@, o, from, map, names, q);
            lemma_impl_items_edits_contains(items@, o, from, map, names, j, p, k);
            let e = token_edit(rule, t, map, names);
            let x: int = choose|x: int| 0 <= x < ie.len() && ie[x] == e;
            assert(es[x] == e);
            assert(names[o] == cs[o].name);
            lemma_stored_keys_stay(cs, es, x);
            if !cs[o].connection_map().contains_key(cs[o].name) {
                let qc = |conn: ConnectionView|
                    conn.name_a == from && conn.relationship == Relationship::Dependency
                        && is_impl_token(items@, conn.name_b) && map.contains_key(conn.name_b);
                assert forall|y: int|
                    0 <= y < es.len() && #[trigger] stored_key(es[y]) == Some((o, cs[o].name))
                        implies qc(stored_connection(es[y]).unwrap()) by {
                    assert(q(es[y]));
                }
                lemma_stored_value(cs, es, o, cs[o].name, qc, x);
                let conn = apply_edits(cs, es)[o].connection_map()[cs[o].name];
                if only_mapped_impl_token(items@, map, t) {
                    let (j2, p2, k2) = choose|j2: int, p2: int, k2: int|
                        #[trigger] impl_token(items@, j2, p2, k2) == Some(conn.name_b);
                    assert(impl_token(items@, j2, p2, k2) is Some);
                }
            }
        },
        _ => {},
    }
}

proof fn lemma_apply_edits_concat(cs: Seq<ClassView>, a: Seq<EditView>, b: Seq<EditView>)
    ensures
        apply_edits(cs, a + b) == apply_edits(apply_edits(cs, a), b),
    decreases b.len(),
{
    if b.len() == 0 {
        assert(a + b =~= a);
    } else {
        assert((a + b).drop_last() =~= a + b.drop_last());
        assert((a + b).last() == b.last());
        lemma_apply_edits_concat(cs, a, b.drop_last());
    }
}

/// The relationships of a file are found item by item: the classes after a
/// file with one more item are the classes after the file, then after a
/// file that holds that item alone (so what one item does, it does anywhere).
pub proof fn lemma_relationships_item_by_item(
    items: Seq<ItemSyntax>,
    it: ItemSyntax,
    map: Map<Seq<char>, usize>,
    cs: Seq<ClassView>,
)
    ensures
        ({
            let mid = apply_edits(cs, file_edits(items, map, view_names(cs)));
            apply_edits(cs, file_edits(items.push(it), map, view_names(cs))) == apply_edits(
                mid,
                file_edits(seq![it], map, view_names(mid)),
            )
        }),
{
    let names = view_names(cs);
    let a = file_edits(items, map, names);
    let mid = apply_edits(cs, a);
    lemma_apply_edits_grows(cs, a);
    assert(view_names(mid) =~= names) by {
        assert forall|j: int| 0 <= j < mid.len() implies #[trigger] view_names(mid)[j]
            == names[j] by {
            assert(mid[j].name == cs[j].name);
        }
    }
    assert(items.push(it).drop_last() =~= items);
    assert(items.push(it).last() == it);
    assert(seq![it].drop_last() =~= Seq::<ItemSyntax>::empty());
    assert(seq![it].last() == it);
    let b = item_edits(it, map, names);
    assert(file_edits(seq![it], map, names) == file_edits(Seq::<ItemSyntax>::empty(), map, names)
        + b);
    assert(file_edits(seq![it], map, names) =~= b);
    assert(file_edits(items.push(it), map, names) == a + b);
    lemma_apply_edits_concat(cs, a, b);
}

} // verus!

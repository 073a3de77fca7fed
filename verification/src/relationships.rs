//! Relationships between classes found in a source file.
//!
//! The work is described as a sequence of edits of the list of classes
//! (`file_edits`); `find_relationships` applies exactly those edits.
use vstd::prelude::*;

use crate::class_map::ClassMap;
use crate::members::{function_from_signature, signature_function};
use crate::model::{
    has_key, visibility_of, Class, ClassView, Connection, ConnectionView, Function, FunctionView,
    Relationship, Visibility,
};
use crate::syntax::{
    texts, FieldSyntax, FileSyntax, FnArgSyntax, ImplItemSyntax, ImplTraitSyntax, ItemSyntax,
    TokenNode, TraitItemSyntax,
};

verus! {

/// One change to the list of classes.
pub enum EditView {
    /// Add a connection to class `class` under `key`, unless one is stored there.
    AddConnection { class: int, key: Seq<char>, connection: ConnectionView },
    /// Store a connection in class `class` under `key`, replacing one stored there.
    InsertConnection { class: int, key: Seq<char>, connection: ConnectionView },
    /// Append a method line to class `class`.
    AddFunction { class: int, function: FunctionView },
}

/// The classes after one edit; an edit of a position out of range changes nothing.
pub open spec fn apply_edit(cs: Seq<ClassView>, e: EditView) -> Seq<ClassView> {
    match e {
        EditView::AddConnection { class, key, connection } => if 0 <= class < cs.len() {
            cs.update(class, cs[class].add_connection(key, connection))
        } else {
            cs
        },
        EditView::InsertConnection { class, key, connection } => if 0 <= class < cs.len() {
            cs.update(class, cs[class].insert_connection(key, connection))
        } else {
            cs
        },
        EditView::AddFunction { class, function } => if 0 <= class < cs.len() {
            cs.update(class, cs[class].add_function(function))
        } else {
            cs
        },
    }
}

/// The classes after all edits, in order.
pub open spec fn apply_edits(cs: Seq<ClassView>, es: Seq<EditView>) -> Seq<ClassView>
    decreases es.len(),
{
    if es.len() == 0 {
        cs
    } else {
        apply_edit(apply_edits(cs, es.drop_last()), es.last())
    }
}

/// What a token that names a class produces.
pub enum TokenRule {
    /// A token of a field of struct `from`, whose class is at `owner`:
    /// `from --> token`, stored in the struct's class under the token.
    FieldType { owner: int, from: Seq<char> },
    /// A token of a parameter of trait method or free function `from`:
    /// `from ..> C`, stored in the named class C under C's name.
    Parameter { from: Seq<char> },
    /// A token of a parameter of a method of type `from`, whose class is at
    /// `owner`: `from ..> token`, stored in the owner under the owner's name.
    MethodParameter { owner: int, from: Seq<char> },
    /// A token in the body of free function `from`: `from ..> C`, stored in
    /// the named class C under `from`.
    BodyUse { from: Seq<char> },
}

/// The edit that token `t` (which names a class) produces under `rule`.
pub open spec fn token_edit(
    rule: TokenRule,
    t: Seq<char>,
    map: Map<Seq<char>, usize>,
    names: Seq<Seq<char>>,
) -> EditView {
    match rule {
        TokenRule::FieldType { owner, from } => EditView::AddConnection {
            class: owner,
            key: t,
            connection: ConnectionView {
                name_a: from,
                name_b: t,
                relationship: Relationship::Association,
            },
        },
        TokenRule::Parameter { from } => EditView::AddConnection {
            class: map[t] as int,
            key: names[map[t] as int],
            connection: ConnectionView {
                name_a: from,
                name_b: names[map[t] as int],
                relationship: Relationship::Dependency,
            },
        },
        TokenRule::MethodParameter { owner, from } => EditView::AddConnection {
            class: owner,
            key: names[owner],
            connection: ConnectionView {
                name_a: from,
                name_b: t,
                relationship: Relationship::Dependency,
            },
        },
        TokenRule::BodyUse { from } => EditView::AddConnection {
            class: map[t] as int,
            key: from,
            connection: ConnectionView {
                name_a: from,
                name_b: names[map[t] as int],
                relationship: Relationship::Dependency,
            },
        },
    }
}

/// The edits of the tokens that name a class, in order.
pub open spec fn token_edits(
    tokens: Seq<Seq<char>>,
    rule: TokenRule,
    map: Map<Seq<char>, usize>,
    names: Seq<Seq<char>>,
) -> Seq<EditView>
    decreases tokens.len(),
{
    if tokens.len() == 0 {
        Seq::empty()
    } else {
        let rest = token_edits(tokens.drop_last(), rule, map, names);
        if map.contains_key(tokens.last()) {
            rest.push(token_edit(rule, tokens.last(), map, names))
        } else {
            rest
        }
    }
}

/// The edits of the tokens of the typed parameters.
pub open spec fn params_edits(
    inputs: Seq<FnArgSyntax>,
    rule: TokenRule,
    map: Map<Seq<char>, usize>,
    names: Seq<Seq<char>>,
) -> Seq<EditView>
    decreases inputs.len(),
{
    if inputs.len() == 0 {
        Seq::empty()
    } else {
        params_edits(inputs.drop_last(), rule, map, names) + match inputs.last() {
            FnArgSyntax::Typed { tokens, .. } => token_edits(texts(tokens@), rule, map, names),
            FnArgSyntax::Receiver => Seq::empty(),
        }
    }
}

/// The edits of the tokens of the fields.
pub open spec fn fields_edits(
    fields: Seq<FieldSyntax>,
    rule: TokenRule,
    map: Map<Seq<char>, usize>,
    names: Seq<Seq<char>>,
) -> Seq<EditView>
    decreases fields.len(),
{
    if fields.len() == 0 {
        Seq::empty()
    } else {
        fields_edits(fields.drop_last(), rule, map, names) + token_edits(
            texts(fields.last().tokens@),
            rule,
            map,
            names,
        )
    }
}

/// The edits of every non-group token of a body, groups entered in place.
pub open spec fn body_edits(
    nodes: Seq<TokenNode>,
    rule: TokenRule,
    map: Map<Seq<char>, usize>,
    names: Seq<Seq<char>>,
) -> Seq<EditView>
    decreases nodes,
{
    if nodes.len() == 0 {
        Seq::empty()
    } else {
        let last = nodes.last();
        body_edits(nodes.drop_last(), rule, map, names) + match last {
            TokenNode::Group(children) => {
                proof {
                    assert(decreases_to!(nodes => last));
                }
                body_edits(children@, rule, map, names)
            },
            TokenNode::Leaf(t) => if map.contains_key(t@) {
                seq![token_edit(rule, t@, map, names)]
            } else {
                Seq::empty()
            },
        }
    }
}

/// The edits of the methods of trait `from`.
pub open spec fn trait_items_edits(
    items: Seq<TraitItemSyntax>,
    from: Seq<char>,
    map: Map<Seq<char>, usize>,
    names: Seq<Seq<char>>,
) -> Seq<EditView>
    decreases items.len(),
{
    if items.len() == 0 {
        Seq::empty()
    } else {
        trait_items_edits(items.drop_last(), from, map, names) + match items.last() {
            TraitItemSyntax::Fn(sig) => params_edits(
                sig.inputs@,
                TokenRule::Parameter { from },
                map,
                names,
            ),
            TraitItemSyntax::Other => Seq::empty(),
        }
    }
}

/// The edits of the methods of an inherent impl of `from`, whose class is at
/// `owner`: each method adds its line, then its parameter edits.
pub open spec fn impl_items_edits(
    items: Seq<ImplItemSyntax>,
    owner: int,
    from: Seq<char>,
    map: Map<Seq<char>, usize>,
    names: Seq<Seq<char>>,
) -> Seq<EditView>
    decreases items.len(),
{
    if items.len() == 0 {
        Seq::empty()
    } else {
        impl_items_edits(items.drop_last(), owner, from, map, names) + match items.last() {
            ImplItemSyntax::Fn { visibility, sig } => seq![
                EditView::AddFunction {
                    class: owner,
                    function: signature_function(visibility_of(visibility), sig),
                },
            ] + params_edits(sig.inputs@, TokenRule::MethodParameter { owner, from }, map, names),
            ImplItemSyntax::Other => Seq::empty(),
        }
    }
}

/// The edits of one item.
pub open spec fn item_edits(
    item: ItemSyntax,
    map: Map<Seq<char>, usize>,
    names: Seq<Seq<char>>,
) -> Seq<EditView> {
    match item {
        ItemSyntax::Struct { ident, fields, .. } => if map.contains_key(ident@) {
            fields_edits(
                fields@,
                TokenRule::FieldType { owner: map[ident@] as int, from: ident@ },
                map,
                names,
            )
        } else {
            Seq::empty()
        },
        ItemSyntax::Trait { ident, items, .. } => trait_items_edits(items@, ident@, map, names),
        ItemSyntax::Impl { trait_, self_ty, items } => match trait_ {
            ImplTraitSyntax::Ident(name) => if map.contains_key(name@) {
                seq![
                    EditView::InsertConnection {
                        class: map[name@] as int,
                        key: self_ty@,
                        connection: ConnectionView {
                            name_a: self_ty@,
                            name_b: name@,
                            relationship: Relationship::Inheritance,
                        },
                    },
                ]
            } else {
                Seq::empty()
            },
            ImplTraitSyntax::Inherent => if map.contains_key(self_ty@) {
                impl_items_edits(items@, map[self_ty@] as int, self_ty@, map, names)
            } else {
                Seq::empty()
            },
            ImplTraitSyntax::Path => Seq::empty(),
        },
        ItemSyntax::Fn { sig, body, .. } => params_edits(
            sig.inputs@,
            TokenRule::Parameter { from: sig.ident@ },
            map,
            names,
        ) + body_edits(body@, TokenRule::BodyUse { from: sig.ident@ }, map, names),
        _ => Seq::empty(),
    }
}

/// The edits of all items, in order.
pub open spec fn file_edits(
    items: Seq<ItemSyntax>,
    map: Map<Seq<char>, usize>,
    names: Seq<Seq<char>>,
) -> Seq<EditView>
    decreases items.len(),
{
    if items.len() == 0 {
        Seq::empty()
    } else {
        file_edits(items.drop_last(), map, names) + item_edits(items.last(), map, names)
    }
}

/// Every trait path of an impl block is a single identifier.
pub open spec fn trait_paths_are_idents(items: Seq<ItemSyntax>) -> bool {
    forall|i: int|
        0 <= i < items.len() ==> !(#[trigger] items[i] matches ItemSyntax::Impl {
            trait_: ImplTraitSyntax::Path,
            ..
        })
}

pub open spec fn class_views(cs: Seq<Class>) -> Seq<ClassView> {
    cs.map_values(|c: Class| c@)
}

pub open spec fn class_names(cs: Seq<Class>) -> Seq<Seq<char>> {
    cs.map_values(|c: Class| c.name@)
}

pub open spec fn all_wf(cs: Seq<Class>) -> bool {
    forall|i: int| 0 <= i < cs.len() ==> #[trigger] cs[i].wf()
}

/// Every position in the map is a position of `classes`.
pub open spec fn map_in_range(map: Map<Seq<char>, usize>, len: nat) -> bool {
    forall|k: Seq<char>| #[trigger] map.contains_key(k) ==> map[k] < len
}

} // verus!

verus! {

/// An edit with executable values; see [`EditView`].
enum Edit {
    AddConnection { class: usize, key: String, connection: Connection },
    InsertConnection { class: usize, key: String, connection: Connection },
    AddFunction { class: usize, function: Function },
}

spec fn edit_view(e: Edit) -> EditView {
    match e {
        Edit::AddConnection { class, key, connection } => EditView::AddConnection {
            class: class as int,
            key: key@,
            connection: connection@,
        },
        Edit::InsertConnection { class, key, connection } => EditView::InsertConnection {
            class: class as int,
            key: key@,
            connection: connection@,
        },
        Edit::AddFunction { class, function } => EditView::AddFunction {
            class: class as int,
            function: function@,
        },
    }
}

spec fn edit_views(es: Seq<Edit>) -> Seq<EditView> {
    es.map_values(|e: Edit| edit_view(e))
}

proof fn lemma_edit_views_push(es: Seq<Edit>, e: Edit)
    ensures
        edit_views(es.push(e)) == edit_views(es).push(edit_view(e)),
{
    assert(edit_views(es.push(e)) =~= edit_views(es).push(edit_view(e)));
}

/// A [`TokenRule`] with executable values.
enum Rule {
    FieldType { owner: usize, from: String },
    Parameter { from: String },
    MethodParameter { owner: usize, from: String },
    BodyUse { from: String },
}

spec fn rule_view(r: Rule) -> TokenRule {
    match r {
        Rule::FieldType { owner, from } => TokenRule::FieldType { owner: owner as int, from: from@ },
        Rule::Parameter { from } => TokenRule::Parameter { from: from@ },
        Rule::MethodParameter { owner, from } => TokenRule::MethodParameter {
            owner: owner as int,
            from: from@,
        },
        Rule::BodyUse { from } => TokenRule::BodyUse { from: from@ },
    }
}

/// The conditions under which edits can be computed from `map` and `classes`.
spec fn context_ok(map: &ClassMap, classes: Seq<Class>) -> bool {
    &&& map.wf()
    &&& map_in_range(map@, classes.len())
}

spec fn rule_ok(r: Rule, len: nat) -> bool {
    match r {
        Rule::FieldType { owner, .. } => owner < len,
        Rule::MethodParameter { owner, .. } => owner < len,
        _ => true,
    }
}

/// The edit that `token` produces under `rule`.
fn create_connection(token: &String, rule: &Rule, map: &ClassMap, classes: &Vec<Class>) -> (res:
    Edit)
    requires
        context_ok(map, classes@),
        rule_ok(*rule, classes.len() as nat),
        map@.contains_key(token@),
    ensures
        edit_view(res) == token_edit(rule_view(*rule), token@, map@, class_names(classes@)),
{
    let ghost names = class_names(classes@);
    match rule {
        Rule::FieldType { owner, from } => Edit::AddConnection {
            class: *owner,
            key: token.clone(),
            connection: Connection::new(from.clone(), token.clone(), Relationship::Association),
        },
        Rule::Parameter { from } => {
            let c: usize = map.get(token).unwrap();
            let name = classes[c].name.clone();
            assert(names[c as int] == name@);
            Edit::AddConnection {
                class: c,
                key: name.clone(),
                connection: Connection::new(from.clone(), name, Relationship::Dependency),
            }
        },
        Rule::MethodParameter { owner, from } => {
            let key = classes[*owner].name.clone();
            assert(names[*owner as int] == key@);
            Edit::AddConnection {
                class: *owner,
                key,
                connection: Connection::new(from.clone(), token.clone(), Relationship::Dependency),
            }
        },
        Rule::BodyUse { from } => {
            let c: usize = map.get(token).unwrap();
            let name = classes[c].name.clone();
            assert(names[c as int] == name@);
            Edit::AddConnection {
                class: c,
                key: from.clone(),
                connection: Connection::new(from.clone(), name, Relationship::Dependency),
            }
        },
    }
}

/// Adds the edit of `token` if it names a class.
fn check_token(
    token: &String,
    rule: &Rule,
    map: &ClassMap,
    classes: &Vec<Class>,
    edits: &mut Vec<Edit>,
)
    requires
        context_ok(map, classes@),
        rule_ok(*rule, classes.len() as nat),
    ensures
        edit_views(final(edits)@) == edit_views(old(edits)@) + if map@.contains_key(
            token@,
        ) {
            seq![token_edit(rule_view(*rule), token@, map@, class_names(classes@))]
        } else {
            Seq::empty()
        },
{
    if map.contains_key(token) {
        let e = create_connection(token, rule, map, classes);
        proof {
            lemma_edit_views_push(edits@, e);
        }
        edits.push(e);
        assert(edit_views(edits@) =~= edit_views(old(edits)@) + seq![edit_view(e)]);
    } else {
        assert(edit_views(edits@) =~= edit_views(old(edits)@) + Seq::<EditView>::empty());
    }
}

/// Adds the edits of the tokens that name a class.
fn push_token_edits(
    tokens: &Vec<String>,
    rule: &Rule,
    map: &ClassMap,
    classes: &Vec<Class>,
    edits: &mut Vec<Edit>,
)
    requires
        context_ok(map, classes@),
        rule_ok(*rule, classes.len() as nat),
    ensures
        edit_views(final(edits)@) == edit_views(old(edits)@) + token_edits(
            texts(tokens@),
            rule_view(*rule),
            map@,
            class_names(classes@),
        ),
{
    let ghost ts = texts(tokens@);
    let ghost r = rule_view(*rule);
    let ghost names = class_names(classes@);
    let mut i: usize = 0;
    while i < tokens.len()
        invariant
            i <= tokens.len(),
            ts == texts(tokens@),
            r == rule_view(*rule),
            names == class_names(classes@),
            context_ok(map, classes@),
            rule_ok(*rule, classes.len() as nat),
            edit_views(edits@) == edit_views(old(edits)@) + token_edits(
                ts.take(i as int),
                r,
                map@,
                names,
            ),
        decreases tokens.len() - i,
    {
        assert(ts.take(i + 1).drop_last() =~= ts.take(i as int));
        assert(ts.take(i + 1).last() == tokens@[i as int]@);
        check_token(&tokens[i], rule, map, classes, edits);
        assert(edit_views(edits@) =~= edit_views(old(edits)@) + token_edits(
            ts.take(i + 1),
            r,
            map@,
            names,
        ));
        i = i + 1;
    }
    assert(ts.take(tokens.len() as int) =~= ts);
}

/// Adds the edits of the typed parameters.
fn push_params_edits(
    inputs: &Vec<FnArgSyntax>,
    rule: &Rule,
    map: &ClassMap,
    classes: &Vec<Class>,
    edits: &mut Vec<Edit>,
)
    requires
        context_ok(map, classes@),
        rule_ok(*rule, classes.len() as nat),
    ensures
        edit_views(final(edits)@) == edit_views(old(edits)@) + params_edits(
            inputs@,
            rule_view(*rule),
            map@,
            class_names(classes@),
        ),
{
    let ghost r = rule_view(*rule);
    let ghost names = class_names(classes@);
    let mut i: usize = 0;
    while i < inputs.len()
        invariant
            i <= inputs.len(),
            r == rule_view(*rule),
            names == class_names(classes@),
            context_ok(map, classes@),
            rule_ok(*rule, classes.len() as nat),
            edit_views(edits@) == edit_views(old(edits)@) + params_edits(
                inputs@.take(i as int),
                r,
                map@,
                names,
            ),
        decreases inputs.len() - i,
    {
        assert(inputs@.take(i + 1).drop_last() =~= inputs@.take(i as int));
        match &inputs[i] {
            FnArgSyntax::Typed { tokens, .. } => {
                push_token_edits(tokens, rule, map, classes, edits);
            },
            FnArgSyntax::Receiver => {},
        }
        assert(edit_views(edits@) =~= edit_views(old(edits)@) + params_edits(
            inputs@.take(i + 1),
            r,
            map@,
            names,
        ));
        i = i + 1;
    }
    assert(inputs@.take(inputs.len() as int) =~= inputs@);
}

/// Adds the edits of the tokens of all fields.
fn push_fields_edits(
    fields: &Vec<FieldSyntax>,
    rule: &Rule,
    map: &ClassMap,
    classes: &Vec<Class>,
    edits: &mut Vec<Edit>,
)
    requires
        context_ok(map, classes@),
        rule_ok(*rule, classes.len() as nat),
    ensures
        edit_views(final(edits)@) == edit_views(old(edits)@) + fields_edits(
            fields@,
            rule_view(*rule),
            map@,
            class_names(classes@),
        ),
{
    let ghost r = rule_view(*rule);
    let ghost names = class_names(classes@);
    let mut i: usize = 0;
    while i < fields.len()
        invariant
            i <= fields.len(),
            r == rule_view(*rule),
            names == class_names(classes@),
            context_ok(map, classes@),
            rule_ok(*rule, classes.len() as nat),
            edit_views(edits@) == edit_views(old(edits)@) + fields_edits(
                fields@.take(i as int),
                r,
                map@,
                names,
            ),
        decreases fields.len() - i,
    {
        assert(fields@.take(i + 1).drop_last() =~= fields@.take(i as int));
        push_token_edits(&fields[i].tokens, rule, map, classes, edits);
        assert(edit_views(edits@) =~= edit_views(old(edits)@) + fields_edits(
            fields@.take(i + 1),
            r,
            map@,
            names,
        ));
        i = i + 1;
    }
    assert(fields@.take(fields.len() as int) =~= fields@);
}

/// Adds the edits of every non-group token of `tokens`, entering groups in place.
fn check_tokens(
    tokens: &Vec<TokenNode>,
    rule: &Rule,
    map: &ClassMap,
    classes: &Vec<Class>,
    edits: &mut Vec<Edit>,
)
    requires
        context_ok(map, classes@),
        rule_ok(*rule, classes.len() as nat),
    ensures
        edit_views(final(edits)@) == edit_views(old(edits)@) + body_edits(
            tokens@,
            rule_view(*rule),
            map@,
            class_names(classes@),
        ),
    decreases tokens@,
{
    let ghost r = rule_view(*rule);
    let ghost names = class_names(classes@);
    let mut i: usize = 0;
    while i < tokens.len()
        invariant
            i <= tokens.len(),
            r == rule_view(*rule),
            names == class_names(classes@),
            context_ok(map, classes@),
            rule_ok(*rule, classes.len() as nat),
            edit_views(edits@) == edit_views(old(edits)@) + body_edits(
                tokens@.take(i as int),
                r,
                map@,
                names,
            ),
        decreases tokens.len() - i,
    {
        assert(tokens@.take(i + 1).drop_last() =~= tokens@.take(i as int));
        assert(tokens@.take(i + 1).last() == tokens@[i as int]);
        match &tokens[i] {
            TokenNode::Group(children) => {
                assert(decreases_to!(tokens@ => tokens@[i as int]));
                check_tokens(children, rule, map, classes, edits);
            },
            TokenNode::Leaf(t) => {
                check_token(t, rule, map, classes, edits);
            },
        }
        assert(edit_views(edits@) =~= edit_views(old(edits)@) + body_edits(
            tokens@.take(i + 1),
            r,
            map@,
            names,
        ));
        i = i + 1;
    }
    assert(tokens@.take(tokens.len() as int) =~= tokens@);
}

} // verus!

verus! {

/// Adds the edits of the methods of trait `from`.
fn push_trait_items_edits(
    items: &Vec<TraitItemSyntax>,
    from: &String,
    map: &ClassMap,
    classes: &Vec<Class>,
    edits: &mut Vec<Edit>,
)
    requires
        context_ok(map, classes@),
    ensures
        edit_views(final(edits)@) == edit_views(old(edits)@) + trait_items_edits(
            items@,
            from@,
            map@,
            class_names(classes@),
        ),
{
    let ghost names = class_names(classes@);
    let rule = Rule::Parameter { from: from.clone() };
    let mut i: usize = 0;
    while i < items.len()
        invariant
            i <= items.len(),
            names == class_names(classes@),
            rule_view(rule) == (TokenRule::Parameter { from: from@ }),
            rule_ok(rule, classes.len() as nat),
            context_ok(map, classes@),
            edit_views(edits@) == edit_views(old(edits)@) + trait_items_edits(
                items@.take(i as int),
                from@,
                map@,
                names,
            ),
        decreases items.len() - i,
    {
        assert(items@.take(i + 1).drop_last() =~= items@.take(i as int));
        match &items[i] {
            TraitItemSyntax::Fn(sig) => {
                push_params_edits(&sig.inputs, &rule, map, classes, edits);
            },
            TraitItemSyntax::Other => {},
        }
        assert(edit_views(edits@) =~= edit_views(old(edits)@) + trait_items_edits(
            items@.take(i + 1),
            from@,
            map@,
            names,
        ));
        i = i + 1;
    }
    assert(items@.take(items.len() as int) =~= items@);
}

/// Adds the edits of the methods of an inherent impl of `from`, whose class is at `owner`.
fn push_impl_items_edits(
    items: &Vec<ImplItemSyntax>,
    owner: usize,
    from: &String,
    map: &ClassMap,
    classes: &Vec<Class>,
    edits: &mut Vec<Edit>,
)
    requires
        context_ok(map, classes@),
        owner < classes.len(),
    ensures
        edit_views(final(edits)@) == edit_views(old(edits)@) + impl_items_edits(
            items@,
            owner as int,
            from@,
            map@,
            class_names(classes@),
        ),
{
    let ghost names = class_names(classes@);
    let rule = Rule::MethodParameter { owner, from: from.clone() };
    let mut i: usize = 0;
    while i < items.len()
        invariant
            i <= items.len(),
            owner < classes.len(),
            names == class_names(classes@),
            rule_view(rule) == (TokenRule::MethodParameter { owner: owner as int, from: from@ }),
            rule_ok(rule, classes.len() as nat),
            context_ok(map, classes@),
            edit_views(edits@) == edit_views(old(edits)@) + impl_items_edits(
                items@.take(i as int),
                owner as int,
                from@,
                map@,
                names,
            ),
        decreases items.len() - i,
    {
        assert(items@.take(i + 1).drop_last() =~= items@.take(i as int));
        match &items[i] {
            ImplItemSyntax::Fn { visibility, sig } => {
                let vis = Visibility::from_vis(visibility);
                let function = function_from_signature(vis, sig);
                let e = Edit::AddFunction { class: owner, function };
                proof {
                    lemma_edit_views_push(edits@, e);
                }
                edits.push(e);
                push_params_edits(&sig.inputs, &rule, map, classes, edits);
            },
            ImplItemSyntax::Other => {},
        }
        assert(edit_views(edits@) =~= edit_views(old(edits)@) + impl_items_edits(
            items@.take(i + 1),
            owner as int,
            from@,
            map@,
            names,
        ));
        i = i + 1;
    }
    assert(items@.take(items.len() as int) =~= items@);
}

/// Adds the edits of one item.
fn push_item_edits(item: &ItemSyntax, map: &ClassMap, classes: &Vec<Class>, edits: &mut Vec<Edit>)
    requires
        context_ok(map, classes@),
        !(*item matches ItemSyntax::Impl { trait_: ImplTraitSyntax::Path, .. }),
    ensures
        edit_views(final(edits)@) == edit_views(old(edits)@) + item_edits(
            *item,
            map@,
            class_names(classes@),
        ),
{
    let ghost names = class_names(classes@);
    match item {
        ItemSyntax::Struct { ident, fields, .. } => {
            match map.get(ident) {
                Some(owner) => {
                    let rule = Rule::FieldType { owner, from: ident.clone() };
                    push_fields_edits(fields, &rule, map, classes, edits);
                },
                None => {
                    assert(edit_views(edits@) =~= edit_views(old(edits)@) + Seq::<
                        EditView,
                    >::empty());
                },
            }
        },
        ItemSyntax::Trait { ident, items, .. } => {
            push_trait_items_edits(items, ident, map, classes, edits);
        },
        ItemSyntax::Impl { trait_, self_ty, items } => {
            match trait_ {
                ImplTraitSyntax::Ident(name) => {
                    match map.get(name) {
                        Some(c) => {
                            let e = Edit::InsertConnection {
                                class: c,
                                key: self_ty.clone(),
                                connection: Connection::new(
                                    self_ty.clone(),
                                    name.clone(),
                                    Relationship::Inheritance,
                                ),
                            };
                            proof {
                                lemma_edit_views_push(edits@, e);
                            }
                            edits.push(e);
                            assert(edit_views(edits@) =~= edit_views(old(edits)@) + seq![
                                edit_view(e),
                            ]);
                        },
                        None => {
                            assert(edit_views(edits@) =~= edit_views(old(edits)@) + Seq::<
                                EditView,
                            >::empty());
                        },
                    }
                },
                ImplTraitSyntax::Inherent => {
                    match map.get(self_ty) {
                        Some(owner) => {
                            push_impl_items_edits(items, owner, self_ty, map, classes, edits);
                        },
                        None => {
                            assert(edit_views(edits@) =~= edit_views(old(edits)@) + Seq::<
                                EditView,
                            >::empty());
                        },
                    }
                },
                ImplTraitSyntax::Path => {},
            }
        },
        ItemSyntax::Fn { sig, body, .. } => {
            let rule = Rule::Parameter { from: sig.ident.clone() };
            push_params_edits(&sig.inputs, &rule, map, classes, edits);
            let body_rule = Rule::BodyUse { from: sig.ident.clone() };
            check_tokens(body, &body_rule, map, classes, edits);
            assert(edit_views(edits@) =~= edit_views(old(edits)@) + item_edits(
                *item,
                map@,
                names,
            ));
        },
        _ => {
            assert(edit_views(edits@) =~= edit_views(old(edits)@) + Seq::<EditView>::empty());
        },
    }
}

/// The edits of all items of the file.
fn relationship_edits(syntax: &FileSyntax, map: &ClassMap, classes: &Vec<Class>) -> (res: Vec<
    Edit,
>)
    requires
        context_ok(map, classes@),
        trait_paths_are_idents(syntax.items@),
    ensures
        edit_views(res@) == file_edits(syntax.items@, map@, class_names(classes@)),
{
    let ghost names = class_names(classes@);
    let ghost items = syntax.items@;
    let mut edits: Vec<Edit> = Vec::new();
    let mut i: usize = 0;
    assert(edit_views(edits@) =~= Seq::<EditView>::empty());
    while i < syntax.items.len()
        invariant
            i <= syntax.items.len(),
            items == syntax.items@,
            names == class_names(classes@),
            context_ok(map, classes@),
            trait_paths_are_idents(items),
            edit_views(edits@) == file_edits(items.take(i as int), map@, names),
        decreases syntax.items.len() - i,
    {
        assert(items.take(i + 1).drop_last() =~= items.take(i as int));
        assert(items.take(i + 1).last() == items[i as int]);
        push_item_edits(&syntax.items[i], map, classes, &mut edits);
        i = i + 1;
    }
    assert(items.take(items.len() as int) =~= items);
    edits
}

} // verus!

verus! {

fn copy_connection(c: &Connection) -> (res: Connection)
    ensures
        res@ == c@,
{
    Connection::new(c.name_a.clone(), c.name_b.clone(), c.relationship)
}

fn copy_function(f: &Function) -> (res: Function)
    ensures
        res@ == f@,
{
    Function::new(f.visibility, f.name.clone(), f.params.clone(), f.return_type.clone())
}

/// Applies `edits` in order.
fn apply_edits_to(classes: &mut Vec<Class>, edits: &Vec<Edit>)
    requires
        all_wf(old(classes)@),
    ensures
        all_wf(final(classes)@),
        class_views(final(classes)@) == apply_edits(class_views(old(classes)@), edit_views(edits@)),
{
    let ghost es = edit_views(edits@);
    let ghost start = class_views(classes@);
    let mut i: usize = 0;
    while i < edits.len()
        invariant
            i <= edits.len(),
            es == edit_views(edits@),
            all_wf(classes@),
            class_views(classes@) == apply_edits(start, es.take(i as int)),
        decreases edits.len() - i,
    {
        assert(es.take(i + 1).drop_last() =~= es.take(i as int));
        assert(es.take(i + 1).last() == edit_view(edits@[i as int]));
        let ghost before = classes@;
        match &edits[i] {
            Edit::AddConnection { class, key, connection } => {
                if *class < classes.len() {
                    let c: usize = *class;
                    let mut target = classes.remove(c);
                    target.add_connection(key.clone(), copy_connection(connection));
                    classes.insert(c, target);
                    assert(classes@ =~= before.update(c as int, target));
                    assert(class_views(classes@) =~= class_views(before).update(c as int, target@));
                }
            },
            Edit::InsertConnection { class, key, connection } => {
                if *class < classes.len() {
                    let c: usize = *class;
                    let mut target = classes.remove(c);
                    target.insert_connection(key.clone(), copy_connection(connection));
                    classes.insert(c, target);
                    assert(classes@ =~= before.update(c as int, target));
                    assert(class_views(classes@) =~= class_views(before).update(c as int, target@));
                }
            },
            Edit::AddFunction { class, function } => {
                if *class < classes.len() {
                    let c: usize = *class;
                    let mut target = classes.remove(c);
                    target.functions.push(copy_function(function));
                    assert(target@.functions =~= before[c as int]@.functions.push(function@));
                    assert(target@.connections =~= before[c as int]@.connections);
                    assert(before[c as int].wf());
                    assert(target.wf());
                    classes.insert(c, target);
                    assert(classes@ =~= before.update(c as int, target));
                    assert(class_views(classes@) =~= class_views(before).update(c as int, target@));
                }
            },
        }
        i = i + 1;
    }
    assert(es.take(edits.len() as int) =~= es);
}

/// Adds to `classes` the connections and methods that the items of `syntax`
/// show: see [`file_edits`] for the exact edits, which are applied in order.
pub fn find_relationships(syntax: &FileSyntax, class_map: &ClassMap, classes: &mut Vec<Class>)
    requires
        class_map.wf(),
        map_in_range(class_map@, old(classes).len() as nat),
        all_wf(old(classes)@),
        trait_paths_are_idents(syntax.items@),
    ensures
        all_wf(final(classes)@),
        class_views(final(classes)@) == apply_edits(
            class_views(old(classes)@),
            file_edits(syntax.items@, class_map@, class_names(old(classes)@)),
        ),
{
    let edits = relationship_edits(syntax, class_map, classes);
    apply_edits_to(classes, &edits);
}

} // verus!

verus! {

/// One edit keeps every class's name, visibility and fields, only extends
/// its methods, and keeps every connection key it had.
pub proof fn lemma_apply_edit_grows(cs: Seq<ClassView>, e: EditView)
    ensures
        apply_edit(cs, e).len() == cs.len(),
        forall|i: int|
            #![trigger apply_edit(cs, e)[i]]
            0 <= i < cs.len() ==> {
                &&& apply_edit(cs, e)[i].name == cs[i].name
                &&& apply_edit(cs, e)[i].visibility == cs[i].visibility
                &&& apply_edit(cs, e)[i].fields == cs[i].fields
                &&& cs[i].functions.is_prefix_of(apply_edit(cs, e)[i].functions)
                &&& forall|k: Seq<char>|
                    has_key(cs[i].connections, k) ==> #[trigger] has_key(
                        apply_edit(cs, e)[i].connections,
                        k,
                    )
            },
{
    assert forall|i: int| 0 <= i < cs.len() implies {
        &&& cs[i].functions.is_prefix_of(apply_edit(cs, e)[i].functions)
        &&& forall|k: Seq<char>|
            has_key(cs[i].connections, k) ==> #[trigger] has_key(
                apply_edit(cs, e)[i].connections,
                k,
            )
    } by {
        let d = apply_edit(cs, e)[i];
        assert forall|k: Seq<char>| has_key(cs[i].connections, k) implies #[trigger] has_key(
            d.connections,
            k,
        ) by {
            let j: int = choose|j: int|
                0 <= j < cs[i].connections.len() && #[trigger] cs[i].connections[j].0 == k;
            assert(d.connections[j].0 == k);
        }
    }
}

/// The edits of `find_relationships` keep every class's name, visibility and
/// fields, only extend its methods, and keep every connection key it had.
pub proof fn lemma_apply_edits_grows(cs: Seq<ClassView>, es: Seq<EditView>)
    ensures
        apply_edits(cs, es).len() == cs.len(),
        forall|i: int|
            #![trigger apply_edits(cs, es)[i]]
            0 <= i < cs.len() ==> {
                &&& apply_edits(cs, es)[i].name == cs[i].name
                &&& apply_edits(cs, es)[i].visibility == cs[i].visibility
                &&& apply_edits(cs, es)[i].fields == cs[i].fields
                &&& cs[i].functions.is_prefix_of(apply_edits(cs, es)[i].functions)
                &&& forall|k: Seq<char>|
                    has_key(cs[i].connections, k) ==> #[trigger] has_key(
                        apply_edits(cs, es)[i].connections,
                        k,
                    )
            },
    decreases es.len(),
{
    if es.len() > 0 {
        let mid = apply_edits(cs, es.drop_last());
        lemma_apply_edits_grows(cs, es.drop_last());
        lemma_apply_edit_grows(mid, es.last());
        assert forall|i: int| 0 <= i < cs.len() implies {
            &&& cs[i].functions.is_prefix_of(apply_edits(cs, es)[i].functions)
            &&& forall|k: Seq<char>|
                has_key(cs[i].connections, k) ==> #[trigger] has_key(
                    apply_edits(cs, es)[i].connections,
                    k,
                )
        } by {
            assert(mid[i].name == cs[i].name);
            assert(apply_edit(mid, es.last())[i].name == mid[i].name);
        }
    }
}

} // verus!

verus! {

/// The class and key of an edit that stores a connection.
pub open spec fn stored_key(e: EditView) -> Option<(int, Seq<char>)> {
    match e {
        EditView::AddConnection { class, key, .. } => Some((class, key)),
        EditView::InsertConnection { class, key, .. } => Some((class, key)),
        EditView::AddFunction { .. } => None,
    }
}

/// After a list of edits, every class that one of them stored a connection
/// in holds a connection under that edit's key.
pub proof fn lemma_stored_keys_stay(cs: Seq<ClassView>, es: Seq<EditView>, j: int)
    requires
        0 <= j < es.len(),
        stored_key(es[j]) matches Some((c, k)) && 0 <= c < cs.len(),
    ensures
        stored_key(es[j]) matches Some((c, k)) && has_key(apply_edits(cs, es)[c].connections, k),
    decreases es.len(),
{
    let (c, k) = stored_key(es[j]).unwrap();
    let mid = apply_edits(cs, es.drop_last());
    lemma_apply_edits_grows(cs, es.drop_last());
    if j == es.len() - 1 {
        let d = apply_edit(mid, es[j])[c];
        match es[j] {
            EditView::AddConnection { .. } => {
                if !has_key(mid[c].connections, k) {
                    assert(d.connections[d.connections.len() - 1].0 == k);
                }
            },
            EditView::InsertConnection { .. } => {
                if has_key(mid[c].connections, k) {
                    let i: int = choose|i: int|
                        0 <= i < mid[c].connections.len() && #[trigger] mid[c].connections[i].0
                            == k;
                    assert(d.connections[i].0 == k);
                } else {
                    assert(d.connections[d.connections.len() - 1].0 == k);
                }
            },
            EditView::AddFunction { .. } => {},
        }
    } else {
        assert(es.drop_last()[j] == es[j]);
        lemma_stored_keys_stay(cs, es.drop_last(), j);
        lemma_apply_edit_grows(mid, es.last());
        assert(has_key(apply_edit(mid, es.last())[c].connections, k));
    }
}

pub(crate) proof fn lemma_token_edits_contains(
    tokens: Seq<Seq<char>>,
    rule: TokenRule,
    map: Map<Seq<char>, usize>,
    names: Seq<Seq<char>>,
    i: int,
)
    requires
        0 <= i < tokens.len(),
        map.contains_key(tokens[i]),
    ensures
        token_edits(tokens, rule, map, names).contains(token_edit(rule, tokens[i], map, names)),
    decreases tokens.len(),
{
    let rest = token_edits(tokens.drop_last(), rule, map, names);
    if i == tokens.len() - 1 {
        assert(token_edits(tokens, rule, map, names).last() == token_edit(
            rule,
            tokens[i],
            map,
            names,
        ));
    } else {
        assert(tokens.drop_last()[i] == tokens[i]);
        lemma_token_edits_contains(tokens.drop_last(), rule, map, names, i);
        let x: int = choose|x: int| 0 <= x < rest.len() && rest[x] == token_edit(rule, tokens[i], map, names);
        assert(token_edits(tokens, rule, map, names)[x] == rest[x]);
    }
}

proof fn lemma_fields_edits_contains(
    fields: Seq<FieldSyntax>,
    rule: TokenRule,
    map: Map<Seq<char>, usize>,
    names: Seq<Seq<char>>,
    f: int,
    t: int,
)
    requires
        0 <= f < fields.len(),
        0 <= t < fields[f].tokens@.len(),
        map.contains_key(fields[f].tokens@[t]@),
    ensures
        fields_edits(fields, rule, map, names).contains(
            token_edit(rule, fields[f].tokens@[t]@, map, names),
        ),
    decreases fields.len(),
{
    let e = token_edit(rule, fields[f].tokens@[t]@, map, names);
    let rest = fields_edits(fields.drop_last(), rule, map, names);
    let own = token_edits(texts(fields.last().tokens@), rule, map, names);
    if f == fields.len() - 1 {
        assert(texts(fields[f].tokens@)[t] == fields[f].tokens@[t]@);
        lemma_token_edits_contains(texts(fields[f].tokens@), rule, map, names, t);
        let x: int = choose|x: int| 0 <= x < own.len() && own[x] == e;
        assert((rest + own)[rest.len() + x] == e);
    } else {
        assert(fields.drop_last()[f] == fields[f]);
        lemma_fields_edits_contains(fields.drop_last(), rule, map, names, f, t);
        let x: int = choose|x: int| 0 <= x < rest.len() && rest[x] == e;
        assert((rest + own)[x] == e);
    }
}

pub(crate) proof fn lemma_file_edits_contains(
    items: Seq<ItemSyntax>,
    map: Map<Seq<char>, usize>,
    names: Seq<Seq<char>>,
    i: int,
    e: EditView,
)
    requires
        0 <= i < items.len(),
        item_edits(items[i], map, names).contains(e),
    ensures
        file_edits(items, map, names).contains(e),
    decreases items.len(),
{
    let rest = file_edits(items.drop_last(), map, names);
    let own = item_edits(items.last(), map, names);
    if i == items.len() - 1 {
        let x: int = choose|x: int| 0 <= x < own.len() && own[x] == e;
        assert((rest + own)[rest.len() + x] == e);
    } else {
        assert(items.drop_last()[i] == items[i]);
        lemma_file_edits_contains(items.drop_last(), map, names, i, e);
        let x: int = choose|x: int| 0 <= x < rest.len() && rest[x] == e;
        assert((rest + own)[x] == e);
    }
}

pub(crate) proof fn lemma_contains_stored(cs: Seq<ClassView>, es: Seq<EditView>, e: EditView)
    requires
        es.contains(e),
        stored_key(e) matches Some((c, k)) && 0 <= c < cs.len(),
    ensures
        stored_key(e) matches Some((c, k)) && has_key(apply_edits(cs, es)[c].connections, k),
{
    let j: int = choose|j: int| 0 <= j < es.len() && es[j] == e;
    lemma_stored_keys_stay(cs, es, j);
}

/// A struct whose name is mapped, with a field token that names a mapped
/// class, ends up with a connection stored under that token (an
/// association from the struct to that class).
pub proof fn lemma_struct_field_association(
    items: Seq<ItemSyntax>,
    map: Map<Seq<char>, usize>,
    cs: Seq<ClassView>,
    i: int,
    f: int,
    t: int,
)
    requires
        map_in_range(map, cs.len()),
        0 <= i < items.len(),
        items[i] matches ItemSyntax::Struct { ident, fields, .. } && map.contains_key(ident@) && 0
            <= f < fields@.len() && 0 <= t < fields@[f].tokens@.len() && map.contains_key(
            fields@[f].tokens@[t]@,
        ),
    ensures
        items[i] matches ItemSyntax::Struct { ident, fields, .. } && has_key(
            apply_edits(cs, file_edits(items, map, view_names(cs)))[map[ident@] as int].connections,
            fields@[f].tokens@[t]@,
        ),
{
    let names = view_names(cs);
    match items[i] {
        ItemSyntax::Struct { ident, fields, .. } => {
            let rule = TokenRule::FieldType { owner: map[ident@] as int, from: ident@ };
            lemma_fields_edits_contains(fields@, rule, map, names, f, t);
            let e = token_edit(rule, fields@[f].tokens@[t]@, map, names);
            lemma_file_edits_contains(items, map, names, i, e);
            lemma_contains_stored(cs, file_edits(items, map, names), e);
        },
        _ => {},
    }
}

/// An impl of a mapped trait for a type ends up with a connection stored in
/// the trait's class under the type's text (the type inherits the trait).
pub proof fn lemma_trait_impl_inheritance(
    items: Seq<ItemSyntax>,
    map: Map<Seq<char>, usize>,
    cs: Seq<ClassView>,
    i: int,
)
    requires
        map_in_range(map, cs.len()),
        0 <= i < items.len(),
        items[i] matches ItemSyntax::Impl { trait_: ImplTraitSyntax::Ident(name), .. }
            && map.contains_key(name@),
    ensures
        items[i] matches ItemSyntax::Impl { trait_: ImplTraitSyntax::Ident(name), self_ty, .. }
            && has_key(
            apply_edits(cs, file_edits(items, map, view_names(cs)))[map[name@] as int].connections,
            self_ty@,
        ),
{
    let names = view_names(cs);
    match items[i] {
        ItemSyntax::Impl { trait_: ImplTraitSyntax::Ident(name), self_ty, items: its } => {
            let e = item_edits(items[i], map, names)[0];
            assert(item_edits(items[i], map, names).contains(e));
            lemma_file_edits_contains(items, map, names, i, e);
            lemma_contains_stored(cs, file_edits(items, map, names), e);
        },
        _ => {},
    }
}

/// Names of classes.
pub open spec fn view_names(cs: Seq<ClassView>) -> Seq<Seq<char>> {
    cs.map_values(|c: ClassView| c.name)
}

} // verus!

verus! {

/// Some non-group token with text `t` occurs in `nodes`, at any depth of groups.
pub open spec fn body_mentions(nodes: Seq<TokenNode>, t: Seq<char>) -> bool
    decreases nodes,
{
    if nodes.len() == 0 {
        false
    } else {
        let last = nodes.last();
        body_mentions(nodes.drop_last(), t) || match last {
            TokenNode::Leaf(s) => s@ == t,
            TokenNode::Group(children) => {
                proof {
                    assert(decreases_to!(nodes => last));
                }
                body_mentions(children@, t)
            },
        }
    }
}

pub(crate) proof fn lemma_body_edits_contains(
    nodes: Seq<TokenNode>,
    rule: TokenRule,
    map: Map<Seq<char>, usize>,
    names: Seq<Seq<char>>,
    t: Seq<char>,
)
    requires
        body_mentions(nodes, t),
        map.contains_key(t),
    ensures
        body_edits(nodes, rule, map, names).contains(token_edit(rule, t, map, names)),
    decreases nodes,
{
    let e = token_edit(rule, t, map, names);
    let last = nodes.last();
    let rest = body_edits(nodes.drop_last(), rule, map, names);
    let own = match last {
        TokenNode::Group(children) => body_edits(children@, rule, map, names),
        TokenNode::Leaf(s) => if map.contains_key(s@) {
            seq![token_edit(rule, s@, map, names)]
        } else {
            Seq::empty()
        },
    };
    assert(body_edits(nodes, rule, map, names) == rest + own);
    if body_mentions(nodes.drop_last(), t) {
        assert(decreases_to!(nodes => nodes.drop_last()));
        lemma_body_edits_contains(nodes.drop_last(), rule, map, names, t);
        let x: int = choose|x: int| 0 <= x < rest.len() && rest[x] == e;
        assert((rest + own)[x] == e);
    } else {
        match last {
            TokenNode::Leaf(s) => {
                assert((rest + own)[rest.len() as int] == e);
            },
            TokenNode::Group(children) => {
                assert(decreases_to!(nodes => last));
                lemma_body_edits_contains(children@, rule, map, names, t);
                let x: int = choose|x: int| 0 <= x < own.len() && own[x] == e;
                assert((rest + own)[rest.len() + x] == e);
            },
        }
    }
}

/// A free function whose body mentions a mapped class ends up with a
/// connection stored in that class under the function's name (the function
/// depends on the class).
pub proof fn lemma_body_use_dependency(
    items: Seq<ItemSyntax>,
    map: Map<Seq<char>, usize>,
    cs: Seq<ClassView>,
    i: int,
    t: Seq<char>,
)
    requires
        map_in_range(map, cs.len()),
        0 <= i < items.len(),
        items[i] matches ItemSyntax::Fn { body, .. } && body_mentions(body@, t),
        map.contains_key(t),
    ensures
        items[i] matches ItemSyntax::Fn { sig, .. } && has_key(
            apply_edits(cs, file_edits(items, map, view_names(cs)))[map[t] as int].connections,
            sig.ident@,
        ),
{
    let names = view_names(cs);
    match items[i] {
        ItemSyntax::Fn { sig, body, .. } => {
            let rule = TokenRule::BodyUse { from: sig.ident@ };
            lemma_body_edits_contains(body@, rule, map, names, t);
            let e = token_edit(rule, t, map, names);
            let p = params_edits(sig.inputs@, TokenRule::Parameter { from: sig.ident@ }, map, names);
            let b = body_edits(body@, rule, map, names);
            let x: int = choose|x: int| 0 <= x < b.len() && b[x] == e;
            assert((p + b)[p.len() + x] == e);
            assert(item_edits(items[i], map, names).contains(e));
            lemma_file_edits_contains(items, map, names, i, e);
            lemma_contains_stored(cs, file_edits(items, map, names), e);
        },
        _ => {},
    }
}

} // verus!

verus! {

/// Whether an item can give edits: enums and other items (uses, constants,
/// modules, macros, ...) never do.
pub open spec fn may_relate(item: ItemSyntax) -> bool {
    !(item is Enum || item is Other)
}

/// The edits of a file are those of its items that may relate classes.
pub proof fn lemma_file_edits_of_relating_items(
    items: Seq<ItemSyntax>,
    map: Map<Seq<char>, usize>,
    names: Seq<Seq<char>>,
)
    ensures
        file_edits(items, map, names) == file_edits(
            items.filter(|it: ItemSyntax| may_relate(it)),
            map,
            names,
        ),
    decreases items.len(),
{
    let p = |it: ItemSyntax| may_relate(it);
    if items.len() > 0 {
        lemma_file_edits_of_relating_items(items.drop_last(), map, names);
        let sub = items.drop_last().filter(p);
        reveal(Seq::filter);
        assert(items.filter(p) == (if p(items.last()) {
            sub.push(items.last())
        } else {
            sub
        }));
        if p(items.last()) {
            assert(sub.push(items.last()).drop_last() =~= sub);
            assert(file_edits(sub.push(items.last()), map, names) == file_edits(sub, map, names)
                + item_edits(items.last(), map, names));
        } else {
            assert(item_edits(items.last(), map, names) =~= Seq::<EditView>::empty());
            assert(file_edits(items, map, names) =~= file_edits(items.drop_last(), map, names));
        }
    } else {
        reveal(Seq::filter);
        assert(items.filter(p) =~= Seq::<ItemSyntax>::empty());
    }
}

/// Enums, uses, modules and other such items may be inserted into a file, or
/// removed from it, anywhere: `find_relationships` then changes the classes
/// in the same way.
pub proof fn lemma_unrelated_items_change_nothing(
    items: Seq<ItemSyntax>,
    more: Seq<ItemSyntax>,
    map: Map<Seq<char>, usize>,
    cs: Seq<ClassView>,
)
    requires
        items.filter(|it: ItemSyntax| may_relate(it)) == more.filter(
            |it: ItemSyntax| may_relate(it),
        ),
    ensures
        apply_edits(cs, file_edits(more, map, view_names(cs))) == apply_edits(
            cs,
            file_edits(items, map, view_names(cs)),
        ),
{
    lemma_file_edits_of_relating_items(items, map, view_names(cs));
    lemma_file_edits_of_relating_items(more, map, view_names(cs));
}

} // verus!

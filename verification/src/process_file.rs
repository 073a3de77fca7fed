//! Direct Mermaid text for the items of one source file: a class per struct,
//! enum and trait, and an arrow from a struct to every declared type that
//! one of its field types names.
use vstd::prelude::*;
use vstd::string::StringExecFns;

use crate::members::{join, typed_param_texts, join_typed_params};
use crate::init_classes::{lemma_trait_method_sigs_push, trait_method_sigs};
use crate::syntax::{texts, FieldSyntax, FileSyntax, ItemSyntax, SignatureSyntax, TraitItemSyntax};

verus! {

/// `  +<field text> ` for each named field, one per line.
pub open spec fn named_field_lines(fields: Seq<FieldSyntax>) -> Seq<char>
    decreases fields.len(),
{
    if fields.len() == 0 {
        Seq::empty()
    } else {
        named_field_lines(fields.drop_last()) + if fields.last().ident is Some {
            "  +"@ + fields.last().text@ + " \n"@
        } else {
            Seq::empty()
        }
    }
}

/// The tokens that are among `defined`, in order.
pub open spec fn defined_tokens(tokens: Seq<Seq<char>>, defined: Seq<Seq<char>>) -> Seq<Seq<char>>
    decreases tokens.len(),
{
    if tokens.len() == 0 {
        Seq::empty()
    } else {
        let rest = defined_tokens(tokens.drop_last(), defined);
        if defined.contains(tokens.last()) {
            rest.push(tokens.last())
        } else {
            rest
        }
    }
}

/// The type tokens of the named fields that are among `defined`, field by field.
pub open spec fn field_children(fields: Seq<FieldSyntax>, defined: Seq<Seq<char>>) -> Seq<
    Seq<char>,
>
    decreases fields.len(),
{
    if fields.len() == 0 {
        Seq::empty()
    } else {
        field_children(fields.drop_last(), defined) + if fields.last().ident is Some {
            defined_tokens(texts(fields.last().ty_tokens@), defined)
        } else {
            Seq::empty()
        }
    }
}

/// `<parent> <|-- <child>` for each child, one per line.
pub open spec fn child_lines(parent: Seq<char>, children: Seq<Seq<char>>) -> Seq<char>
    decreases children.len(),
{
    if children.len() == 0 {
        Seq::empty()
    } else {
        child_lines(parent, children.drop_last()) + parent + " <|-- "@ + children.last() + "\n"@
    }
}

/// `  +<name>(<typed parameters>)` and ` -> <return type>` when one is written,
/// for each method, one per line.
pub open spec fn trait_method_lines(items: Seq<TraitItemSyntax>) -> Seq<char>
    decreases items.len(),
{
    if items.len() == 0 {
        Seq::empty()
    } else {
        trait_method_lines(items.drop_last()) + match items.last() {
            TraitItemSyntax::Fn(sig) => "  +"@ + sig.ident@ + "("@ + join(
                typed_param_texts(sig.inputs@),
                ", "@,
            ) + ")"@ + match sig.output {
                Some(t) => " -> "@ + t@,
                None => Seq::empty(),
            } + "\n"@,
            TraitItemSyntax::Other => Seq::empty(),
        }
    }
}

/// `  +<variant>` for each variant, one per line.
pub open spec fn variant_lines(variants: Seq<String>) -> Seq<char>
    decreases variants.len(),
{
    if variants.len() == 0 {
        Seq::empty()
    } else {
        variant_lines(variants.drop_last()) + "  +"@ + variants.last()@ + "\n"@
    }
}

/// The text of one item.
pub open spec fn item_text(item: ItemSyntax, defined: Seq<Seq<char>>) -> Seq<char> {
    match item {
        ItemSyntax::Struct { ident, fields, .. } => {
            let children = field_children(fields@, defined);
            "class "@ + ident@ + " {\n"@ + named_field_lines(fields@) + "}\n\n"@ + child_lines(
                ident@,
                children,
            ) + if children.len() > 0 {
                "\n"@
            } else {
                Seq::empty()
            }
        },
        ItemSyntax::Enum { ident, variants, .. } => "class "@ + ident@ + " {\n"@ + variant_lines(
            variants@,
        ) + "}\n\n"@,
        ItemSyntax::Trait { ident, items, .. } => "class "@ + ident@ + " {\n"@
            + trait_method_lines(items@) + "}\n\n"@,
        _ => Seq::empty(),
    }
}

/// The text of all items, in order.
pub open spec fn items_text(items: Seq<ItemSyntax>, defined: Seq<Seq<char>>) -> Seq<char>
    decreases items.len(),
{
    if items.len() == 0 {
        Seq::empty()
    } else {
        items_text(items.drop_last(), defined) + item_text(items.last(), defined)
    }
}

fn is_defined(token: &String, defined_types: &Vec<String>) -> (res: bool)
    ensures
        res == texts(defined_types@).contains(token@),
{
    let mut i: usize = 0;
    while i < defined_types.len()
        invariant
            i <= defined_types.len(),
            forall|j: int| 0 <= j < i ==> defined_types@[j]@ != token@,
        decreases defined_types.len() - i,
    {
        if defined_types[i] == *token {
            assert(texts(defined_types@)[i as int] == token@);
            return true;
        }
        i = i + 1;
    }
    false
}

fn push_struct(
    ident: &String,
    fields: &Vec<FieldSyntax>,
    diagram: &mut String,
    defined_types: &Vec<String>,
)
    ensures
        final(diagram)@ == old(diagram)@ + item_text(
            ItemSyntax::Struct {
                visibility: crate::syntax::VisibilitySyntax::Inherited,
                ident: *ident,
                fields: *fields,
            },
            texts(defined_types@),
        ),
{
    let ghost defined = texts(defined_types@);
    let mut children: Vec<String> = Vec::new();
    diagram.append("class ");
    diagram.append(ident.as_str());
    diagram.append(" {\n");
    let ghost head = diagram@;
    let mut i: usize = 0;
    while i < fields.len()
        invariant
            i <= fields.len(),
            defined == texts(defined_types@),
            diagram@ == head + named_field_lines(fields@.take(i as int)),
            texts(children@) == field_children(fields@.take(i as int), defined),
        decreases fields.len() - i,
    {
        assert(fields@.take(i + 1).drop_last() =~= fields@.take(i as int));
        assert(fields@.take(i + 1).last() == fields@[i as int]);
        let field = &fields[i];
        if field.ident.is_some() {
            let ghost base = texts(children@);
            let ghost ts = texts(field.ty_tokens@);
            let mut k: usize = 0;
            while k < field.ty_tokens.len()
                invariant
                    k <= field.ty_tokens.len(),
                    defined == texts(defined_types@),
                    ts == texts(field.ty_tokens@),
                    texts(children@) == base + defined_tokens(ts.take(k as int), defined),
                decreases field.ty_tokens.len() - k,
            {
                assert(ts.take(k + 1).drop_last() =~= ts.take(k as int));
                assert(ts.take(k + 1).last() == field.ty_tokens@[k as int]@);
                let token = &field.ty_tokens[k];
                if is_defined(token, defined_types) {
                    let ghost c0 = children@;
                    children.push(token.clone());
                    assert(texts(children@) =~= texts(c0).push(token@));
                }
                assert(texts(children@) =~= base + defined_tokens(ts.take(k + 1), defined));
                k = k + 1;
            }
            assert(ts.take(ts.len() as int) =~= ts);
            diagram.append("  +");
            diagram.append(field.text.as_str());
            diagram.append(" \n");
        }
        assert(texts(children@) =~= field_children(fields@.take(i + 1), defined));
        i = i + 1;
    }
    assert(fields@.take(fields.len() as int) =~= fields@);
    diagram.append("}\n\n");
    let ghost head2 = diagram@;
    let ghost cs = texts(children@);
    let mut j: usize = 0;
    while j < children.len()
        invariant
            j <= children.len(),
            cs == texts(children@),
            diagram@ == head2 + child_lines(ident@, cs.take(j as int)),
        decreases children.len() - j,
    {
        assert(cs.take(j + 1).drop_last() =~= cs.take(j as int));
        diagram.append(ident.as_str());
        diagram.append(" <|-- ");
        diagram.append(children[j].as_str());
        diagram.append("\n");
        j = j + 1;
    }
    assert(cs.take(cs.len() as int) =~= cs);
    if children.len() > 0 {
        diagram.append("\n");
    }
}

fn push_enum(ident: &String, variants: &Vec<String>, diagram: &mut String)
    ensures
        final(diagram)@ == old(diagram)@ + "class "@ + ident@ + " {\n"@ + variant_lines(variants@)
            + "}\n\n"@,
{
    diagram.append("class ");
    diagram.append(ident.as_str());
    diagram.append(" {\n");
    let ghost head = diagram@;
    let mut i: usize = 0;
    while i < variants.len()
        invariant
            i <= variants.len(),
            diagram@ == head + variant_lines(variants@.take(i as int)),
        decreases variants.len() - i,
    {
        assert(variants@.take(i + 1).drop_last() =~= variants@.take(i as int));
        diagram.append("  +");
        diagram.append(variants[i].as_str());
        diagram.append("\n");
        i = i + 1;
    }
    assert(variants@.take(variants.len() as int) =~= variants@);
    diagram.append("}\n\n");
}

fn push_trait(ident: &String, items: &Vec<TraitItemSyntax>, diagram: &mut String)
    ensures
        final(diagram)@ == old(diagram)@ + "class "@ + ident@ + " {\n"@ + trait_method_lines(
            items@,
        ) + "}\n\n"@,
{
    diagram.append("class ");
    diagram.append(ident.as_str());
    diagram.append(" {\n");
    let ghost head = diagram@;
    let mut i: usize = 0;
    while i < items.len()
        invariant
            i <= items.len(),
            diagram@ == head + trait_method_lines(items@.take(i as int)),
        decreases items.len() - i,
    {
        assert(items@.take(i + 1).drop_last() =~= items@.take(i as int));
        match &items[i] {
            TraitItemSyntax::Fn(sig) => {
                let params = join_typed_params(&sig.inputs);
                diagram.append("  +");
                diagram.append(sig.ident.as_str());
                diagram.append("(");
                diagram.append(params.as_str());
                diagram.append(")");
                match &sig.output {
                    Some(t) => {
                        diagram.append(" -> ");
                        diagram.append(t.as_str());
                    },
                    None => {},
                }
                diagram.append("\n");
            },
            TraitItemSyntax::Other => {},
        }
        i = i + 1;
    }
    assert(items@.take(items.len() as int) =~= items@);
    diagram.append("}\n\n");
}

/// Appends to `diagram` the text of every item of `syntax` (see [`items_text`]);
/// a struct's arrows go to the type tokens of its named fields that are in
/// `defined_types`.
pub fn process_file(syntax: &FileSyntax, diagram: &mut String, defined_types: &Vec<String>)
    ensures
        final(diagram)@ == old(diagram)@ + items_text(syntax.items@, texts(defined_types@)),
{
    let ghost items = syntax.items@;
    let ghost defined = texts(defined_types@);
    let mut i: usize = 0;
    while i < syntax.items.len()
        invariant
            i <= syntax.items.len(),
            items == syntax.items@,
            defined == texts(defined_types@),
            diagram@ == old(diagram)@ + items_text(items.take(i as int), defined),
        decreases syntax.items.len() - i,
    {
        assert(items.take(i + 1).drop_last() =~= items.take(i as int));
        assert(items.take(i + 1).last() == items[i as int]);
        match &syntax.items[i] {
            ItemSyntax::Struct { ident, fields, .. } => {
                push_struct(ident, fields, diagram, defined_types);
            },
            ItemSyntax::Enum { ident, variants, .. } => {
                push_enum(ident, variants, diagram);
            },
            ItemSyntax::Trait { ident, items, .. } => {
                push_trait(ident, items, diagram);
            },
            _ => {},
        }
        i = i + 1;
    }
    assert(items.take(items.len() as int) =~= items);
}

} // verus!

verus! {

/// The number of line breaks in a text.
pub open spec fn line_breaks(s: Seq<char>) -> nat
    decreases s.len(),
{
    if s.len() == 0 {
        0
    } else {
        line_breaks(s.drop_last()) + if s.last() == '\n' {
            1nat
        } else {
            0nat
        }
    }
}

proof fn lemma_line_breaks_concat(a: Seq<char>, b: Seq<char>)
    ensures
        line_breaks(a + b) == line_breaks(a) + line_breaks(b),
    decreases b.len(),
{
    if b.len() == 0 {
        assert(a + b =~= a);
    } else {
        assert((a + b).drop_last() =~= a + b.drop_last());
        assert((a + b).last() == b.last());
        lemma_line_breaks_concat(a, b.drop_last());
    }
}

proof fn lemma_no_line_breaks(s: Seq<char>)
    requires
        !s.contains('\n'),
    ensures
        line_breaks(s) == 0,
    decreases s.len(),
{
    if s.len() > 0 {
        assert(s.drop_last().len() < s.len());
        if s.drop_last().contains('\n') {
            let i: int = choose|i: int| 0 <= i < s.drop_last().len() && s.drop_last()[i] == '\n';
            assert(s[i] == '\n');
        }
        assert(s.last() == s[s.len() - 1]);
        lemma_no_line_breaks(s.drop_last());
    }
}

proof fn lemma_join_no_line_breaks(parts: Seq<Seq<char>>, sep: Seq<char>)
    requires
        forall|i: int| 0 <= i < parts.len() ==> line_breaks(#[trigger] parts[i]) == 0,
        line_breaks(sep) == 0,
    ensures
        line_breaks(join(parts, sep)) == 0,
    decreases parts.len(),
{
    if parts.len() > 1 {
        lemma_join_no_line_breaks(parts.drop_last(), sep);
        lemma_line_breaks_concat(join(parts.drop_last(), sep), sep);
        lemma_line_breaks_concat(join(parts.drop_last(), sep) + sep, parts.last());
        assert(line_breaks(parts[parts.len() - 1]) == 0);
    } else if parts.len() == 1 {
        assert(line_breaks(parts[0]) == 0);
    }
}

/// A method signature whose name, typed parameter texts and return type
/// hold no line break.
pub open spec fn single_line_signature(sig: SignatureSyntax) -> bool {
    &&& !sig.ident@.contains('\n')
    &&& forall|i: int|
        0 <= i < typed_param_texts(sig.inputs@).len() ==> !(#[trigger] typed_param_texts(
            sig.inputs@,
        )[i]).contains('\n')
    &&& (sig.output matches Some(t) ==> !t@.contains('\n'))
}

/// The line of one trait method: `  +name(typed parameters)`, then
/// ` -> type` only when a return type is written, then a line break.
pub open spec fn method_line(sig: SignatureSyntax) -> Seq<char> {
    "  +"@ + sig.ident@ + "("@ + join(typed_param_texts(sig.inputs@), ", "@) + ")"@ + match sig.output {
        Some(t) => " -> "@ + t@,
        None => Seq::empty(),
    } + "\n"@
}

proof fn lemma_method_line_breaks(sig: SignatureSyntax)
    requires
        single_line_signature(sig),
    ensures
        line_breaks(method_line(sig)) == 1,
{
    reveal_strlit("  +");
    reveal_strlit("(");
    reveal_strlit(")");
    reveal_strlit(", ");
    reveal_strlit(" -> ");
    reveal_strlit("\n");
    let a = "  +"@;
    let b = sig.ident@;
    let c = "("@;
    let params = typed_param_texts(sig.inputs@);
    let d = join(params, ", "@);
    let e = ")"@;
    let f = match sig.output {
        Some(t) => " -> "@ + t@,
        None => Seq::empty(),
    };
    let g = "\n"@;
    assert(!a.contains('\n')) by {
        if a.contains('\n') {
            let i: int = choose|i: int| 0 <= i < a.len() && a[i] == '\n';
        }
    }
    assert(!c.contains('\n')) by {
        if c.contains('\n') {
            let i: int = choose|i: int| 0 <= i < c.len() && c[i] == '\n';
        }
    }
    assert(!e.contains('\n')) by {
        if e.contains('\n') {
            let i: int = choose|i: int| 0 <= i < e.len() && e[i] == '\n';
        }
    }
    assert(!", "@.contains('\n')) by {
        if ", "@.contains('\n') {
            let i: int = choose|i: int| 0 <= i < ", "@.len() && ", "@[i] == '\n';
        }
    }
    lemma_no_line_breaks(a);
    lemma_no_line_breaks(b);
    lemma_no_line_breaks(c);
    lemma_no_line_breaks(e);
    lemma_no_line_breaks(", "@);
    assert forall|i: int| 0 <= i < params.len() implies line_breaks(#[trigger] params[i]) == 0 by {
        lemma_no_line_breaks(params[i]);
    }
    lemma_join_no_line_breaks(params, ", "@);
    match sig.output {
        Some(t) => {
            assert(!" -> "@.contains('\n')) by {
                if " -> "@.contains('\n') {
                    let i: int = choose|i: int| 0 <= i < " -> "@.len() && " -> "@[i] == '\n';
                }
            }
            lemma_no_line_breaks(" -> "@);
            lemma_no_line_breaks(t@);
            lemma_line_breaks_concat(" -> "@, t@);
        },
        None => {
            assert(line_breaks(f) == 0);
        },
    }
    assert(line_breaks(g) == 1) by {
        assert(g.drop_last().len() == 0);
        assert(line_breaks(g.drop_last()) == 0);
    }
    lemma_line_breaks_concat(a, b);
    lemma_line_breaks_concat(a + b, c);
    lemma_line_breaks_concat(a + b + c, d);
    lemma_line_breaks_concat(a + b + c + d, e);
    lemma_line_breaks_concat(a + b + c + d + e, f);
    lemma_line_breaks_concat(a + b + c + d + e + f, g);
}

/// The methods of a trait are written one line each, in item order, and its
/// other items not at all; a method without a return type gets its line too.
pub proof fn lemma_trait_lines_per_method(items: Seq<TraitItemSyntax>)
    ensures
        trait_method_lines(items) == trait_method_sigs(items).map_values(
            |sig: SignatureSyntax| method_line(sig),
        ).flatten(),
    decreases items.len(),
{
    let line = |sig: SignatureSyntax| method_line(sig);
    if items.len() == 0 {
        reveal(Seq::filter);
        assert(items.filter(|it: TraitItemSyntax| it is Fn) =~= Seq::<TraitItemSyntax>::empty());
        assert(trait_method_sigs(items).map_values(line) =~= Seq::<Seq<char>>::empty());
    } else {
        let pre = items.drop_last();
        lemma_trait_lines_per_method(pre);
        lemma_trait_method_sigs_push(items);
        let before = trait_method_sigs(pre).map_values(line);
        match items.last() {
            TraitItemSyntax::Fn(sig) => {
                assert(trait_method_sigs(pre).push(sig).map_values(line) =~= before.push(line(sig)));
                before.lemma_flatten_push(line(sig));
            },
            TraitItemSyntax::Other => {
                assert(trait_method_lines(items) =~= trait_method_lines(pre));
            },
        }
    }
}

/// When no name, parameter or return type of a trait's methods holds a line
/// break, the trait's method text has exactly as many lines as the trait
/// has methods, whatever their return types.
pub proof fn lemma_trait_line_count(items: Seq<TraitItemSyntax>)
    requires
        forall|j: int|
            0 <= j < trait_method_sigs(items).len() ==> single_line_signature(
                #[trigger] trait_method_sigs(items)[j],
            ),
    ensures
        line_breaks(trait_method_lines(items)) == trait_method_sigs(items).len(),
    decreases items.len(),
{
    if items.len() > 0 {
        let pre = items.drop_last();
        lemma_trait_method_sigs_push(items);
        assert forall|j: int|
            0 <= j < trait_method_sigs(pre).len() implies single_line_signature(
            #[trigger] trait_method_sigs(pre)[j],
        ) by {
            assert(trait_method_sigs(items)[j] == trait_method_sigs(pre)[j]);
        }
        lemma_trait_line_count(pre);
        match items.last() {
            TraitItemSyntax::Fn(sig) => {
                let n = trait_method_sigs(pre).len() as int;
                assert(trait_method_sigs(items)[n] == sig);
                lemma_method_line_breaks(sig);
                assert(trait_method_lines(items) == trait_method_lines(pre) + method_line(sig));
                lemma_line_breaks_concat(trait_method_lines(pre), method_line(sig));
            },
            TraitItemSyntax::Other => {
                assert(trait_method_lines(items) =~= trait_method_lines(pre));
            },
        }
    }
}

} // verus!

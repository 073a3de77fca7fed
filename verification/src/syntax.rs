//! Plain-value description of a parsed Rust source file: the items, names,
//! visibilities and token texts that the diagram logic reads.
//!
//! Token texts are the `Display` forms of the tokens (an identifier, a
//! punctuation character, a literal, or a whole delimited group).
use vstd::prelude::*;

verus! {

/// Visibility as written in the source.
#[derive(Clone, Debug)]
pub enum VisibilitySyntax {
    /// `pub`
    Public,
    /// `pub(...)`; holds the token text of the whole restriction, e.g. `pub (crate)`.
    Restricted(String),
    /// No visibility written.
    Inherited,
}

/// A field of a struct.
#[derive(Clone, Debug)]
pub struct FieldSyntax {
    pub visibility: VisibilitySyntax,
    /// The field's name; `None` for the fields of a tuple struct.
    pub ident: Option<String>,
    /// Token text of the field's type.
    pub ty: String,
    /// Texts of the top-level tokens of the field's type.
    pub ty_tokens: Vec<String>,
    /// Texts of the top-level tokens of the whole field (attributes,
    /// visibility, name, colon and type).
    pub tokens: Vec<String>,
    /// Token text of the whole field.
    pub text: String,
}

/// A parameter of a function signature.
#[derive(Clone, Debug)]
pub enum FnArgSyntax {
    /// `self`, `&self`, `&mut self`, ...
    Receiver,
    /// `pattern: Type`: the token text of the parameter and the texts of its
    /// top-level tokens.
    Typed { text: String, tokens: Vec<String> },
}

/// A function signature.
#[derive(Clone, Debug)]
pub struct SignatureSyntax {
    pub ident: String,
    pub inputs: Vec<FnArgSyntax>,
    /// Token text of the return type; `None` when no return type is written.
    pub output: Option<String>,
}

/// An item inside a trait.
#[derive(Clone, Debug)]
pub enum TraitItemSyntax {
    Fn(SignatureSyntax),
    Other,
}

/// An item inside an impl block.
#[derive(Clone, Debug)]
pub enum ImplItemSyntax {
    Fn { visibility: VisibilitySyntax, sig: SignatureSyntax },
    Other,
}

/// A token of a function body: a delimited group of tokens, or any other
/// token with its text.
#[derive(Debug)]
pub enum TokenNode {
    Group(Vec<TokenNode>),
    Leaf(String),
}

/// The trait path of an impl block.
#[derive(Clone, Debug)]
pub enum ImplTraitSyntax {
    /// `impl Type { .. }`
    Inherent,
    /// `impl Name for Type { .. }` where the trait path is a single identifier.
    Ident(String),
    /// `impl path::Name<..> for Type { .. }`: a trait path that is not a single identifier.
    Path,
}

/// A top-level item of a file.
#[derive(Debug)]
pub enum ItemSyntax {
    Struct { visibility: VisibilitySyntax, ident: String, fields: Vec<FieldSyntax> },
    Enum { visibility: VisibilitySyntax, ident: String, variants: Vec<String> },
    Trait { visibility: VisibilitySyntax, ident: String, items: Vec<TraitItemSyntax> },
    /// `self_ty` is the token text of the implementing type.
    Impl { trait_: ImplTraitSyntax, self_ty: String, items: Vec<ImplItemSyntax> },
    Fn { visibility: VisibilitySyntax, sig: SignatureSyntax, body: Vec<TokenNode> },
    Other,
}

/// A parsed source file.
#[derive(Debug)]
pub struct FileSyntax {
    pub items: Vec<ItemSyntax>,
}

/// The texts of a sequence of strings.
pub open spec fn texts(v: Seq<String>) -> Seq<Seq<char>> {
    v.map_values(|s: String| s@)
}

} // verus!

//! Parsing Rust source text with `syn`.
use vstd::prelude::*;

verus! {

#[verifier::external_type_specification]
#[verifier::external_body]
pub struct ExSynFile(syn::File);

#[verifier::external_type_specification]
#[verifier::external_body]
pub struct ExSynError(syn::Error);

/// Whether `syn::parse_file` accepts `code` as a Rust source file.
pub uninterp spec fn is_rust_source(code: Seq<char>) -> bool;

/// The syntax tree that `syn::parse_file` returns for `code` when it accepts it.
pub uninterp spec fn parsed_file(code: Seq<char>) -> syn::File;

/// The message of the error that `syn::parse_file` returns for `code` when
/// it rejects it.
pub uninterp spec fn parse_error_message(code: Seq<char>) -> Seq<char>;

/// The message that `Display` of `syn::Error` writes for an error.
pub uninterp spec fn error_message(err: syn::Error) -> Seq<char>;

/// Calls `syn::parse_file`, which parses `code` as a whole Rust file
/// (after dropping a leading byte-order mark and a shebang line).
/// Claimed: whether it succeeds, the tree it returns and the message of the
/// error it returns all depend on `code` alone; what they are is not
/// described. The error value itself also records the thread that made it,
/// so only its message is tied to `code`.
#[verifier::external_body]
fn syn_parse_file(code: &str) -> (res: Result<syn::File, syn::Error>)
    ensures
        res is Ok == is_rust_source(code@),
        res matches Ok(f) ==> f == parsed_file(code@),
        res matches Err(e) ==> error_message(e) == parse_error_message(code@),
{
    syn::parse_file(code)
}

/// Calls `Display` of `syn::Error` (through `to_string`), which writes the
/// error's first message. Claimed: the text depends on the error alone.
#[verifier::external_body]
fn syn_error_message(err: &syn::Error) -> (res: String)
    ensures
        res@ == error_message(*err),
{
    err.to_string()
}

/// Why a source file could not be read as Rust.
#[derive(Debug)]
pub enum SourceError {
    /// The parser's message.
    Syntax(String),
}

/// Parses `code` as a Rust source file: the tree the parser gives for it, or
/// the parser's message for the error it gives.
pub fn parse_rust_source(code: &str) -> (res: Result<syn::File, SourceError>)
    ensures
        res is Ok <==> is_rust_source(code@),
        res matches Ok(f) ==> f == parsed_file(code@),
        res matches Err(SourceError::Syntax(m)) ==> m@ == parse_error_message(code@),
{
    match syn_parse_file(code) {
        Ok(file) => Ok(file),
        Err(e) => Err(SourceError::Syntax(syn_error_message(&e))),
    }
}

} // verus!

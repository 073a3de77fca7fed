//! Method lines built from function signatures.
use vstd::prelude::*;
use vstd::string::StringExecFns;

use crate::model::{Function, FunctionView, Visibility};
use crate::syntax::{FnArgSyntax, SignatureSyntax};

verus! {

/// `parts` joined with `sep` between neighbours.
pub open spec fn join(parts: Seq<Seq<char>>, sep: Seq<char>) -> Seq<char>
    decreases parts.len(),
{
    if parts.len() == 0 {
        Seq::empty()
    } else if parts.len() == 1 {
        parts[0]
    } else {
        join(parts.drop_last(), sep) + sep + parts.last()
    }
}

/// The texts of the typed parameters, in order; receivers are left out.
pub open spec fn typed_param_texts(inputs: Seq<FnArgSyntax>) -> Seq<Seq<char>>
    decreases inputs.len(),
{
    if inputs.len() == 0 {
        Seq::empty()
    } else {
        let rest = typed_param_texts(inputs.drop_last());
        match inputs.last() {
            FnArgSyntax::Typed { text, .. } => rest.push(text@),
            FnArgSyntax::Receiver => rest,
        }
    }
}

/// Text of the return type; empty when none is written.
pub open spec fn return_text(output: Option<String>) -> Seq<char> {
    match output {
        Some(t) => t@,
        None => Seq::empty(),
    }
}

/// The method line of a signature: its name, its typed parameters joined
/// by `, `, and its return type.
pub open spec fn signature_function(visibility: Visibility, sig: SignatureSyntax) -> FunctionView {
    FunctionView {
        visibility,
        name: sig.ident@,
        params: join(typed_param_texts(sig.inputs@), ", "@),
        return_type: return_text(sig.output),
    }
}

/// The texts of the typed parameters joined with `, `.
pub fn join_typed_params(inputs: &Vec<FnArgSyntax>) -> (res: String)
    ensures
        res@ == join(typed_param_texts(inputs@), ", "@),
{
    let mut res = String::new();
    let mut count: usize = 0;
    let mut i: usize = 0;
    while i < inputs.len()
        invariant
            i <= inputs.len(),
            count == typed_param_texts(inputs@.take(i as int)).len(),
            count <= i,
            res@ == join(typed_param_texts(inputs@.take(i as int)), ", "@),
        decreases inputs.len() - i,
    {
        assert(inputs@.take(i + 1).drop_last() =~= inputs@.take(i as int));
        match &inputs[i] {
            FnArgSyntax::Typed { text, .. } => {
                let ghost parts = typed_param_texts(inputs@.take(i as int));
                assert(typed_param_texts(inputs@.take(i + 1)) == parts.push(text@));
                assert(parts.push(text@).drop_last() =~= parts);
                if count > 0 {
                    res.append(", ");
                } else {
                    assert(parts.push(text@) =~= seq![text@]);
                }
                res.append(text.as_str());
                count = count + 1;
            },
            FnArgSyntax::Receiver => {},
        }
        i = i + 1;
    }
    assert(inputs@.take(inputs.len() as int) =~= inputs@);
    res
}

/// The method line of `sig` with the given visibility.
pub fn function_from_signature(visibility: Visibility, sig: &SignatureSyntax) -> (res: Function)
    ensures
        res@ == signature_function(visibility, *sig),
{
    let params = join_typed_params(&sig.inputs);
    let return_type = match &sig.output {
        Some(t) => t.clone(),
        None => String::new(),
    };
    Function::new(visibility, sig.ident.clone(), params, return_type)
}

} // verus!

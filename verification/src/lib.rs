//! A lexical analyzer for JSON-like text: it turns a character stream into
//! an ordered sequence of typed tokens, ending in a single `End` token, or
//! reports a typed error for the first offending position.
#![verifier::loop_isolation(false)]

use vstd::prelude::*;

pub mod analyze;
pub mod model;
pub mod num;
pub mod reader;
pub mod token;

use crate::analyze::Json4Analyze;
use crate::model::{models, spec_tokens};
use crate::token::LexError;

verus! {

/// Tokenize `json` in one run: on success the run holds the full token
/// sequence of the model, ending in `End`; otherwise the first error is
/// returned and no partial sequence is kept.
pub fn analyze(json: String) -> (r: Result<Json4Analyze, LexError>)
    ensures
        r is Ok <==> spec_tokens(json@, 0) is Ok,
        r is Ok ==> models(r->Ok_0.tokens@) == spec_tokens(json@, 0)->Ok_0 && r->Ok_0.wf(),
        r is Err ==> r->Err_0 == spec_tokens(json@, 0)->Err_0,
{
    let mut a = Json4Analyze::new(json);
    match a.analyze() {
        Ok(_) => Ok(a),
        Err(e) => Err(e),
    }
}

} // verus!

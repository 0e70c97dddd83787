//! Filling templates.
use vstd::prelude::*;

use crate::circom::json::{json_object, JsonObject};
use crate::circom::template_syntax::fillable;
use crate::setup::search::text_of;

verus! {

/// What `tera::Tera::one_off` makes of a template and the values in a JSON object: nothing where
/// the template cannot be parsed or filled.
pub uninterp spec fn rendered(template: Seq<char>, values: Seq<char>) -> Option<Seq<char>>;

/// `tera::Tera::one_off` fills a template, without escaping, with the values of a context, which
/// `serde_json::from_str` and `tera::Context::from_value` read from a JSON object. A template that
/// can be filled calls no function but `range`, no macro, and only filters that compute, so the
/// result depends on the template and the object alone. `one_off` panics on a loop over a string
/// whose graphemes are not single characters, and on a sum of floating-point numbers that
/// overflows: such values are left out.
#[verifier::external_body]
fn fill_template(template: &str, values: &str) -> (r: Option<String>)
    requires
        fillable(template@, values@),
    ensures
        text_of(r) == rendered(template@, values@),
{
    let object = serde_json::from_str::<serde_json::Value>(values).ok()?;
    let context = tera::Context::from_value(object).ok()?;
    tera::Tera::one_off(template, &context, false).ok()
}

/// Fill a template with the fields of an object.
pub fn render(template: &str, values: &JsonObject) -> (r: Option<String>)
    requires
        values.wf(),
        fillable(template@, json_object(values@)),
    ensures
        text_of(r) == rendered(template@, json_object(values@)),
{
    let object: String = values.to_json();
    fill_template(template, object.as_str())
}

} // verus!

use vstd::prelude::*;
use crate::codec::{copy_field, copy_field_from, set_field, set_field_from, Key};
use crate::settings::{default_settings, spec_default_settings, Settings};
use crate::text::{chars_of, trim, trim_range};

verus! {

/// What an answer to the question on the field of `k` makes of `s`: the
/// trimmed answer where it is a value of the field's type, and otherwise,
/// for an empty answer or any other text, the field's default. A wrong answer
/// is never an error.
pub open spec fn spec_answer(s: Settings, k: Key, input: Seq<char>) -> Settings {
    match set_field(s, k, trim(input)) {
        Ok(t) => t,
        Err(_) => copy_field(s, spec_default_settings(), k),
    }
}

/// Takes one answer of the questionnaire into `settings`: the trimmed
/// answer where it is a value of the field's type, else the field's default.
pub fn answer(settings: Settings, key: Key, input: &str) -> (r: Settings)
    ensures
        r == spec_answer(settings, key, input@),
{
    let v = chars_of(input);
    let (a, b) = trim_range(&v, 0, v.len());
    assert(v@.subrange(0, v@.len() as int) =~= v@);
    match set_field_from(settings, key, &v, a, b) {
        Ok(t) => t,
        Err(_) => copy_field_from(settings, &default_settings(), key),
    }
}

} // verus!

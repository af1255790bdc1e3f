//! Reading a stat template back as the game would print it: each `#` of
//! the template filled with one roll.
use vstd::prelude::*;

use crate::text::{chars_of, extend_chars, string_of};

verus! {

/// The roll put into every placeholder: one no matcher bakes in as a
/// fixed value.
pub const ROLL: &'static str = "7";

/// `template` with each `#` replaced by `roll`.
pub open spec fn filled(template: Seq<char>, roll: Seq<char>) -> Seq<char>
    decreases template.len(),
{
    if template.len() == 0 {
        Seq::empty()
    } else {
        filled(template.drop_last(), roll) + if template.last() == '#' {
            roll
        } else {
            seq![template.last()]
        }
    }
}

/// The template as the game prints it with [`ROLL`] rolled everywhere.
pub fn render(template: &str) -> (r: String)
    ensures
        r@ == filled(template@, ROLL@),
{
    let cs = chars_of(template);
    let roll = chars_of(ROLL);
    let mut out: Vec<char> = Vec::new();
    let mut i: usize = 0;
    while i < cs.len()
        invariant
            i <= cs.len(),
            cs@ == template@,
            roll@ == ROLL@,
            out@ == filled(cs@.take(i as int), roll@),
        decreases cs.len() - i,
    {
        proof {
            assert(cs@.take(i as int + 1).drop_last() == cs@.take(i as int));
            assert(cs@.take(i as int + 1).last() == cs@[i as int]);
        }
        if cs[i] == '#' {
            extend_chars(&mut out, roll.as_slice());
        } else {
            out.push(cs[i]);
        }
        i = i + 1;
    }
    assert(cs@.take(cs.len() as int) == cs@);
    string_of(out.as_slice())
}

/// A template without a placeholder reads back as itself.
pub proof fn a_template_without_placeholder_is_itself(template: Seq<char>, roll: Seq<char>)
    requires
        forall|k: int| 0 <= k < template.len() ==> #[trigger] template[k] != '#',
    ensures
        filled(template, roll) == template,
    decreases template.len(),
{
    if template.len() > 0 {
        a_template_without_placeholder_is_itself(template.drop_last(), roll);
        assert(template.drop_last() + seq![template.last()] == template);
    }
}

} // verus!

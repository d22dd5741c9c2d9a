use vstd::prelude::*;

verus! {

/// Relies on `nanoid::format` with nanoid's URL-safe 64-symbol alphabet and
/// its default random source: with a power-of-two alphabet it maps one random
/// byte to one symbol and always returns exactly the requested 21 characters.
/// The characters themselves are random, so nothing more is stated.
#[verifier::external_body]
pub(crate) fn fresh_widget_id() -> (r: String)
    ensures
        r@.len() == 21,
{
    nanoid::format(nanoid::rngs::default, &nanoid::alphabet::SAFE, 21)
}

} // verus!

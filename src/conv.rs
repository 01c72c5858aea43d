//! Canonical variant keys.

use vstd::prelude::*;

verus! {

/// What `str::to_lowercase` gives for the characters.
pub uninterp spec fn lower_of(s: Seq<char>) -> Seq<char>;

/// Relies on `str::to_lowercase`: the result depends on the characters alone.
#[verifier::external_body]
fn lowercase(s: &str) -> (r: String)
    ensures
        r@ == lower_of(s@),
{
    s.to_lowercase()
}

/// The canonical keys that variant names map to.
pub open spec fn is_variant_key(k: Seq<char>) -> bool {
    ||| k == "antichess"@
    ||| k == "atomic"@
    ||| k == "chess960"@
    ||| k == "crazyhouse"@
    ||| k == "fromposition"@
    ||| k == "horde"@
    ||| k == "kingofthehill"@
    ||| k == "racingkings"@
    ||| k == "threecheck"@
    ||| k == "standard"@
}

/// The canonical key of a lowercase variant name; any name not known maps to `standard`.
pub open spec fn variant_key_of(l: Seq<char>) -> Seq<char> {
    if l == "antichess"@ || l == "anti chess"@ || l == "giveaway"@ {
        "antichess"@
    } else if l == "atomic"@ {
        "atomic"@
    } else if l == "chess960"@ || l == "chess 960"@ {
        "chess960"@
    } else if l == "crazyhouse"@ || l == "crazy house"@ {
        "crazyhouse"@
    } else if l == "fromposition"@ || l == "from position"@ {
        "fromposition"@
    } else if l == "horde"@ {
        "horde"@
    } else if l == "kingofthehill"@ || l == "king of the hill"@ || l == "koth"@ {
        "kingofthehill"@
    } else if l == "racingkings"@ || l == "racing kings"@ {
        "racingkings"@
    } else if l == "threecheck"@ || l == "three check"@ || l == "3check"@ || l == "3 check"@ {
        "threecheck"@
    } else {
        "standard"@
    }
}

fn is(l: &String, name: &str) -> (r: bool)
    ensures
        r == (l@ == name@),
{
    *l == name.to_owned()
}

/// The canonical key of an already lowercased variant name.
pub fn variant_key(l: &String) -> (r: String)
    ensures
        r@ == variant_key_of(l@),
        is_variant_key(r@),
{
    let k = if is(l, "antichess") || is(l, "anti chess") || is(l, "giveaway") {
        "antichess"
    } else if is(l, "atomic") {
        "atomic"
    } else if is(l, "chess960") || is(l, "chess 960") {
        "chess960"
    } else if is(l, "crazyhouse") || is(l, "crazy house") {
        "crazyhouse"
    } else if is(l, "fromposition") || is(l, "from position") {
        "fromposition"
    } else if is(l, "horde") {
        "horde"
    } else if is(l, "kingofthehill") || is(l, "king of the hill") || is(l, "koth") {
        "kingofthehill"
    } else if is(l, "racingkings") || is(l, "racing kings") {
        "racingkings"
    } else if is(l, "threecheck") || is(l, "three check") || is(l, "3check") || is(l, "3 check") {
        "threecheck"
    } else {
        "standard"
    };
    k.to_owned()
}

/// The canonical key of a variant name, compared without regard to case;
/// unknown names map to `standard`.
pub fn get_variant(variant_name: &str) -> (r: String)
    ensures
        r@ == variant_key_of(lower_of(variant_name@)),
        is_variant_key(r@),
{
    let l = lowercase(variant_name);
    variant_key(&l)
}

} // verus!

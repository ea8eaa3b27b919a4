//! Completion of dimension identifiers.
use vstd::prelude::*;
use vstd::string::StringSliceAdditionalSpecFns;

use crate::bytes::{ascii, ascii_bytes, find, find_from};

verus! {

/// The dimensions that every world has, in the order they are offered.
pub open spec fn known_dimensions() -> Seq<Seq<char>> {
    seq!["minecraft:overworld"@, "minecraft:the_nether"@, "minecraft:the_end"@]
}

/// `d` where its bytes contain `partial`, nothing otherwise.
pub open spec fn keep_if_contains(d: Seq<char>, partial: Seq<u8>) -> Seq<Seq<char>> {
    if find_from(ascii(d), partial, 0) is Some {
        seq![d]
    } else {
        Seq::empty()
    }
}

/// The known dimensions whose identifier contains `partial`, in order.
pub open spec fn dimensions_matching(partial: Seq<u8>) -> Seq<Seq<char>> {
    keep_if_contains(known_dimensions()[0], partial) + keep_if_contains(
        known_dimensions()[1],
        partial,
    ) + keep_if_contains(known_dimensions()[2], partial)
}

/// Appends `d` to `out` where it contains `partial`.
fn offer_if_contains(out: &mut Vec<&'static str>, d: &'static str, partial: &[u8])
    requires
        vstd::string::is_ascii(d),
    ensures
        final(out)@.map_values(|s: &str| s@) == old(out)@.map_values(|s: &str| s@)
            + keep_if_contains(d@, partial@),
{
    if find(ascii_bytes(d), partial, 0).is_some() {
        out.push(d);
        assert(out@.map_values(|s: &str| s@) =~= old(out)@.map_values(|s: &str| s@) + seq![d@]);
    } else {
        assert(out@.map_values(|s: &str| s@) =~= old(out)@.map_values(|s: &str| s@)
            + keep_if_contains(d@, partial@));
    }
}

/// The known dimension identifiers that contain the text typed so far.
pub fn autocomplete_dimension(partial: &str) -> (r: Vec<&'static str>)
    ensures
        r@.map_values(|s: &str| s@) == dimensions_matching(partial.spec_bytes()),
{
    proof {
        reveal_strlit("minecraft:overworld");
        reveal_strlit("minecraft:the_nether");
        reveal_strlit("minecraft:the_end");
    }
    let p = partial.as_bytes();
    let mut out: Vec<&'static str> = Vec::new();
    assert(out@.map_values(|s: &str| s@) =~= Seq::<Seq<char>>::empty());
    offer_if_contains(&mut out, "minecraft:overworld", p);
    offer_if_contains(&mut out, "minecraft:the_nether", p);
    offer_if_contains(&mut out, "minecraft:the_end", p);
    assert(out@.map_values(|s: &str| s@) =~= dimensions_matching(partial.spec_bytes()));
    out
}

} // verus!

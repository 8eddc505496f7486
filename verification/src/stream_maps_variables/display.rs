use vstd::prelude::*;

use crate::stream_map_key::{decimal, u64_to_string};
use crate::stream_maps_variables::Span;
use crate::text::{append_each_followed_by, each_followed_by, join_pairs, pairs_joined};

verus! {

/// The text in which a descriptor is shown, given that of its stream map:
/// ` <left> - <right>: ` and the stream map's text.
pub fn descriptor_text(span: Span, stream_map_text: &str) -> (text: String)
    ensures
        text@ == " <"@ + decimal(span.left.0 as nat) + "> - <"@ + decimal(span.right.0 as nat) + ">: "@
            + stream_map_text@,
{
    let mut text = String::from_str(" <");
    text.append(u64_to_string(span.left.0 as u64).as_str());
    text.append("> - <");
    text.append(u64_to_string(span.right.0 as u64).as_str());
    text.append(">: ");
    text.append(stream_map_text);
    text
}

/// The text in which the stream maps are shown, given each name with the text of its last
/// descriptor: a line `name => descriptor` for each.
pub fn stream_maps_text(lines: &Vec<(String, String)>) -> (text: String)
    ensures
        text@ == each_followed_by(pairs_joined(lines@, " => "@), "\n"@),
{
    let parts = join_pairs(lines, " => ");
    let mut text = String::new();
    append_each_followed_by(&mut text, &parts, "\n");
    assert(text@ =~= each_followed_by(pairs_joined(lines@, " => "@), "\n"@));
    text
}

} // verus!

//! The CSS text of a list of selectors.

use vstd::prelude::*;
use vstd::string::*;

verus! {

/// The texts of a selector list's selectors, joined with `, `.
pub open spec fn join_selector_texts(parts: Seq<Seq<char>>) -> Seq<char>
    decreases parts.len(),
{
    if parts.len() == 0 {
        Seq::empty()
    } else if parts.len() == 1 {
        parts[0]
    } else {
        join_selector_texts(parts.drop_last()) + ", "@ + parts.last()
    }
}

/// The views of a sequence of strings.
pub open spec fn string_views(parts: Seq<String>) -> Seq<Seq<char>> {
    parts.map_values(|s: String| s@)
}

/// The CSS text of a selector list, given the CSS texts of its selectors in
/// order: the first, then `, ` and the next, and so on. A selector list is
/// never empty.
pub fn selector_list_to_css(parts: &Vec<String>) -> (r: String)
    requires
        parts@.len() > 0,
    ensures
        r@ == join_selector_texts(string_views(parts@)),
{
    let ghost views = string_views(parts@);
    let mut r = String::new();
    r.append(parts[0].as_str());
    assert(views.take(1) =~= seq![views[0]]);
    let mut i: usize = 1;
    while i < parts.len()
        invariant
            views == string_views(parts@),
            1 <= i <= parts@.len(),
            r@ == join_selector_texts(views.take(i as int)),
        decreases parts@.len() - i,
    {
        r.append(", ");
        r.append(parts[i].as_str());
        assert(views.take(i + 1).drop_last() =~= views.take(i as int));
        i = i + 1;
    }
    assert(views.take(parts@.len() as int) =~= views);
    r
}

} // verus!

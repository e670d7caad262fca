//! The textual form of a chain of items: `[a -> b -> null]`.

use vstd::prelude::*;
use vstd::string::*;

verus! {

/// The links of a chain as text: each label with an arrow behind it.
pub open spec fn links_text(labels: Seq<Seq<char>>) -> Seq<char>
    decreases labels.len(),
{
    if labels.len() == 0 {
        Seq::empty()
    } else {
        links_text(labels.drop_last()) + labels.last() + seq![' ', '-', '>', ' ']
    }
}

/// A chain as text: an opening bracket, the links in order, and `null]` for
/// the end of the chain.
pub open spec fn chain_text(labels: Seq<Seq<char>>) -> Seq<char> {
    seq!['['] + links_text(labels) + seq!['n', 'u', 'l', 'l', ']']
}

/// The characters of each label.
pub open spec fn label_texts(labels: Seq<String>) -> Seq<Seq<char>> {
    labels.map_values(|label: String| label@)
}

/// `labels` holds, in order, a text that `Display` gives for each of `items`.
pub open spec fn labelled<T: std::fmt::Display>(items: Seq<T>, labels: Seq<String>) -> bool {
    &&& labels.len() == items.len()
    &&& forall|i: int|
        0 <= i < items.len() ==> to_string_from_display_ensures::<T>(&items[i], #[trigger] labels[i])
}

/// Writes a chain out from the labels of its items, head first.
pub fn render_labels(labels: &Vec<String>) -> (text: String)
    ensures
        text@ == chain_text(label_texts(labels@)),
{
    let mut text = String::new();
    text.append("[");
    let mut i: usize = 0;
    proof {
        reveal_strlit("[");
        reveal_strlit(" -> ");
        reveal_strlit("null]");
        assert(text@ =~= seq!['['] + links_text(label_texts(labels@).take(0)));
    }
    while i < labels.len()
        invariant
            i <= labels.len(),
            " -> "@ == seq![' ', '-', '>', ' '],
            text@ == seq!['['] + links_text(label_texts(labels@).take(i as int)),
        decreases labels.len() - i,
    {
        text.append(labels[i].as_str());
        text.append(" -> ");
        proof {
            let done = label_texts(labels@).take(i as int + 1);
            assert(done.drop_last() =~= label_texts(labels@).take(i as int));
            assert(done.last() == labels@[i as int]@);
            assert(text@ =~= seq!['['] + links_text(done));
        }
        i += 1;
    }
    text.append("null]");
    proof {
        assert(label_texts(labels@).take(i as int) =~= label_texts(labels@));
        assert(text@ =~= chain_text(label_texts(labels@)));
    }
    text
}

} // verus!

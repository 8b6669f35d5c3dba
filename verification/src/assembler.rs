//! Incremental assembly of the output document.
//!
//! The output grows by whole batches.  A fixed page-break marker separates
//! two non-empty segments; no marker is ever produced at the very start or
//! end of the document.  The surrounding program rewrites the whole file
//! after every append, so stable storage always holds the text after a
//! whole number of batches.

use vstd::prelude::*;

verus! {

/// The fixed textual marker inserted between two batches' text.
pub open spec fn spec_page_break() -> Seq<char> {
    "\n\n---\n\n"@
}

/// The document after appending one batch's text: the page-break marker
/// stands between the two sides exactly when both are non-empty.
pub open spec fn spec_append(existing: Seq<char>, new: Seq<char>) -> Seq<char> {
    if existing.len() > 0 && new.len() > 0 {
        existing + spec_page_break() + new
    } else {
        existing + new
    }
}

/// Append one batch's converted text to the in-memory output document.
pub fn append_markdown(existing: &mut String, new_text: &str)
    ensures
        final (existing)@ == spec_append(old(existing)@, new_text@),
{
    if !existing.as_str().is_empty() && !new_text.is_empty() {
        existing.append("\n\n---\n\n");
    }
    existing.append(new_text);
}

/// The document assembled from a starting text and a sequence of batch
/// texts, appended in order.
pub open spec fn assembled(existing: Seq<char>, texts: Seq<Seq<char>>) -> Seq<char>
    decreases texts.len(),
{
    if texts.len() == 0 {
        existing
    } else {
        assembled(spec_append(existing, texts[0]), texts.drop_first())
    }
}

/// Law: appending batch texts one at a time assembles the same document as
/// assembling them in order all at once — so after any prefix of a run's
/// batches (in particular, the batches before a failed one) the output is
/// exactly the assembly of that prefix.
pub proof fn lemma_assembled_push(existing: Seq<char>, texts: Seq<Seq<char>>, t: Seq<char>)
    ensures
        assembled(existing, texts.push(t)) == spec_append(assembled(existing, texts), t),
    decreases texts.len(),
{
    if texts.len() == 0 {
        assert(texts.push(t)[0] == t);
        let rest = texts.push(t).drop_first();
        assert(rest.len() == 0);
        assert(assembled(spec_append(existing, t), rest) == spec_append(existing, t));
        assert(assembled(existing, texts.push(t)) == assembled(spec_append(existing, t), rest));
        assert(assembled(existing, texts) == existing);
    } else {
        assert(texts.push(t)[0] == texts[0]);
        let rest = texts.push(t).drop_first();
        assert(rest =~= texts.drop_first().push(t));
        lemma_assembled_push(spec_append(existing, texts[0]), texts.drop_first(), t);
        assert(assembled(existing, texts.push(t)) == assembled(
            spec_append(existing, texts[0]),
            rest,
        ));
        assert(assembled(existing, texts) == assembled(
            spec_append(existing, texts[0]),
            texts.drop_first(),
        ));
    }
}

} // verus!

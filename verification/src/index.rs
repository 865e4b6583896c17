//! The full-text index: one entry per note, holding the case-folded
//! document built from title, text, markup and tags. An entry is recomputed
//! whole whenever its note changes, never patched.

use vstd::prelude::*;
use vstd::string::StringExecFns;
use crate::text::lower_seq;
use crate::text::lower_str;
use crate::text::spec_trim;
use crate::text::is_substring;
use crate::merge::opt_text;
use crate::note::Note;

verus! {

/// One posting: the note it belongs to and the document indexed for it.
pub struct IndexEntry {
    pub note_id: String,
    pub text: String,
}

/// The tags rendered one after another, each preceded by a space.
pub open spec fn spec_join_tags(tags: Seq<Seq<char>>) -> Seq<char>
    decreases tags.len(),
{
    if tags.len() == 0 {
        Seq::empty()
    } else {
        spec_join_tags(tags.drop_last()) + " "@ + tags.last()
    }
}

/// The document indexed for a note: title, captured text, markup and the
/// tag set, space-separated and case-folded.
pub open spec fn spec_index_text(n: Note) -> Seq<char> {
    lower_seq(
        n.title@ + " "@ + opt_text(n.plaintext.deep_view()) + " "@ + opt_text(n.html.deep_view())
            + spec_join_tags(n.tags.deep_view()),
    )
}

/// A query hits a document when its trimmed, case-folded text occurs
/// contiguously in the document.
pub open spec fn spec_doc_matches(doc: Seq<char>, query: Seq<char>) -> bool {
    is_substring(lower_seq(spec_trim(query)), doc)
}

/// Builds the document indexed for a note.
pub fn build_index_text(n: &Note) -> (r: String)
    ensures
        r@ == spec_index_text(*n),
{
    let mut acc = n.title.clone();
    acc.append(" ");
    match &n.plaintext {
        Some(p) => acc.append(p.as_str()),
        None => {},
    }
    acc.append(" ");
    match &n.html {
        Some(h) => acc.append(h.as_str()),
        None => {},
    }
    proof {
        assert(acc@ =~= n.title@ + " "@ + opt_text(n.plaintext.deep_view()) + " "@ + opt_text(
            n.html.deep_view(),
        ));
    }
    let ghost base = acc@;
    let m = n.tags.len();
    let mut i: usize = 0;
    proof {
        assert(n.tags.deep_view().take(0) =~= Seq::<Seq<char>>::empty());
        assert(acc@ =~= base + spec_join_tags(n.tags.deep_view().take(0)));
    }
    while i < m
        invariant
            m == n.tags@.len(),
            0 <= i <= m,
            acc@ == base + spec_join_tags(n.tags.deep_view().take(i as int)),
        decreases m - i,
    {
        acc.append(" ");
        acc.append(n.tags[i].as_str());
        proof {
            let dv = n.tags.deep_view();
            assert(dv.take(i + 1).drop_last() =~= dv.take(i as int));
            assert(dv.take(i + 1).last() == dv[i as int]);
            assert(dv[i as int] == n.tags@[i as int]@);
            assert(acc@ =~= base + spec_join_tags(dv.take(i + 1)));
        }
        i = i + 1;
    }
    proof {
        assert(n.tags.deep_view().take(m as int) =~= n.tags.deep_view());
    }
    lower_str(acc.as_str())
}

/// Builds the index entry that mirrors a note.
pub fn index_entry_of(n: &Note) -> (e: IndexEntry)
    ensures
        e.note_id@ == n.id@,
        e.text@ == spec_index_text(*n),
{
    IndexEntry { note_id: n.id.clone(), text: build_index_text(n) }
}

} // verus!

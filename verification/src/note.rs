//! The note itself and the records the store hands out: capture input,
//! list summaries, the full detail record and the export payload.

use vstd::prelude::*;
use vstd::string::StrSliceExecFns;
use vstd::string::StringExecFns;
use crate::text::spec_trim;
use crate::text::sorted_unique;
use crate::text::trim_str;
use crate::text::take_chars;
use crate::text::push_char;
use crate::merge::tag_union_holds;
use crate::merge::clone_tags;
use crate::merge::clone_opt_string;
use crate::merge::merge_tags;

verus! {

/// A highlighted rectangle on the captured page. The shell works in its own
/// numeric coordinates and carries them here as raw 32-bit values, one per
/// field, converted back bit-for-bit on the way out.
#[derive(Clone, Copy, PartialEq, Eq, Structural, Debug)]
pub struct Rect {
    pub x: u32,
    pub y: u32,
    pub w: u32,
    pub h: u32,
}

/// The persistent unit: one captured clip with everything later appended to
/// it.
pub struct Note {
    pub id: String,
    pub created_at: String,
    pub title: String,
    pub plaintext: Option<String>,
    pub html: Option<String>,
    pub source_url: Option<String>,
    pub text_quote: Option<String>,
    pub preview_path: Option<String>,
    pub tags: Vec<String>,
    pub page_number: Option<i32>,
    pub highlights: Vec<Rect>,
}

/// What one capture (or append) request carries into the store. `preview`
/// is the relative locator the blob store returned for the request's
/// screenshot, if there was one and writing it succeeded.
pub struct CaptureInput {
    pub text: Option<String>,
    pub html: Option<String>,
    pub source_url: Option<String>,
    pub tags: Vec<String>,
    pub page_number: Option<i32>,
    pub highlights: Vec<Rect>,
    pub preview: Option<String>,
}

/// The list-shaped record: enough for a row in an overview.
pub struct NoteSummary {
    pub id: String,
    pub title: String,
    pub created_at: String,
    pub source_url: Option<String>,
    pub tags: Vec<String>,
    pub snippet: Option<String>,
    pub preview_path: Option<String>,
}

/// The full record for one note; a missing id yields the well-defined
/// sentinel shape instead of an absence.
pub struct NoteDetail {
    pub id: String,
    pub created_at: String,
    pub title: String,
    pub plaintext: Option<String>,
    pub html: Option<String>,
    pub source_url: Option<String>,
    pub text_quote: Option<String>,
    pub tags: Vec<String>,
    pub preview_path: Option<String>,
    pub page_number: Option<i32>,
    pub highlights: Vec<Rect>,
}

/// The fields a text-document export needs.
pub struct ExportRecord {
    pub title: String,
    pub created_at: String,
    pub source_url: Option<String>,
    pub tags: Vec<String>,
    pub plaintext: Option<String>,
    pub html: Option<String>,
}

/// The typed failures of the store. `NotFound` targets a nonexistent id;
/// `IdCollision` reports that a freshly drawn id was already taken, the
/// in-memory analogue of a fatal storage fault, and never overwrites.
#[derive(Clone, Copy, PartialEq, Eq, Structural, Debug)]
pub enum StoreError {
    NotFound,
    IdCollision,
}

/// A note in a healthy shape: its tag set is sorted and duplicate-free.
pub open spec fn note_wf(n: Note) -> bool {
    sorted_unique(n.tags.deep_view())
}

/// The derived title: the first eighty characters of the trimmed captured
/// text, or the placeholder when there is none.
pub open spec fn spec_derived_title(text: Option<Seq<char>>) -> Seq<char> {
    match text {
        None => "Untitled clip"@,
        Some(t) => {
            let tr = spec_trim(t);
            if tr.len() == 0 {
                "Untitled clip"@
            } else {
                tr.take(vstd::math::min(80, tr.len() as int))
            }
        },
    }
}

pub fn derive_title(text: &Option<String>) -> (r: String)
    ensures
        r@ == spec_derived_title(text.deep_view()),
{
    match text {
        None => String::from_str("Untitled clip"),
        Some(t) => {
            let tr = trim_str(t.as_str());
            if tr.as_str().is_empty() {
                String::from_str("Untitled clip")
            } else {
                take_chars(tr.as_str(), 80)
            }
        },
    }
}

/// The snippet shown in lists: the trimmed text, shortened to one hundred
/// and sixty characters with an ellipsis when longer.
pub open spec fn spec_snippet(p: Seq<char>) -> Seq<char> {
    let t = spec_trim(p);
    if t.len() > 160 {
        t.take(160).push('…')
    } else {
        t
    }
}

pub open spec fn spec_snippet_opt(p: Option<Seq<char>>) -> Option<Seq<char>> {
    match p {
        None => None,
        Some(s) => Some(spec_snippet(s)),
    }
}

pub fn snippet_of(p: &Option<String>) -> (r: Option<String>)
    ensures
        r.deep_view() == spec_snippet_opt(p.deep_view()),
{
    match p {
        None => None,
        Some(s) => {
            let t = trim_str(s.as_str());
            let tl = t.as_str().unicode_len();
            if tl > 160 {
                let mut r = take_chars(t.as_str(), 160);
                push_char(&mut r, '…');
                Some(r)
            } else {
                Some(t)
            }
        },
    }
}

/// Two notes that agree in every field, looked at through the views.
pub open spec fn note_like(a: Note, b: Note) -> bool {
    &&& a.id@ == b.id@
    &&& a.created_at@ == b.created_at@
    &&& a.title@ == b.title@
    &&& a.plaintext.deep_view() == b.plaintext.deep_view()
    &&& a.html.deep_view() == b.html.deep_view()
    &&& a.source_url.deep_view() == b.source_url.deep_view()
    &&& a.text_quote.deep_view() == b.text_quote.deep_view()
    &&& a.preview_path.deep_view() == b.preview_path.deep_view()
    &&& a.tags.deep_view() == b.tags.deep_view()
    &&& a.page_number == b.page_number
    &&& a.highlights@ == b.highlights@
}

pub fn clone_rects(v: &Vec<Rect>) -> (r: Vec<Rect>)
    ensures
        r@ == v@,
{
    let mut r: Vec<Rect> = Vec::new();
    let mut i: usize = 0;
    while i < v.len()
        invariant
            0 <= i <= v@.len(),
            r@.len() == i,
            forall|j: int| 0 <= j < i ==> r@[j] == v@[j],
        decreases v@.len() - i,
    {
        r.push(v[i]);
        i = i + 1;
    }
    proof {
        assert(r@ =~= v@);
    }
    r
}

pub fn clone_note(n: &Note) -> (r: Note)
    ensures
        note_like(r, *n),
{
    Note {
        id: n.id.clone(),
        created_at: n.created_at.clone(),
        title: n.title.clone(),
        plaintext: clone_opt_string(&n.plaintext),
        html: clone_opt_string(&n.html),
        source_url: clone_opt_string(&n.source_url),
        text_quote: clone_opt_string(&n.text_quote),
        preview_path: clone_opt_string(&n.preview_path),
        tags: clone_tags(&n.tags),
        page_number: n.page_number,
        highlights: clone_rects(&n.highlights),
    }
}

/// How a freshly created note relates to the capture that made it: every
/// field is taken from the input, the title is derived, the text quote
/// snapshots the captured text, and the tag set is the normalized union of
/// the input tags into the empty set.
pub open spec fn is_created_note(
    n: Note,
    id: Seq<char>,
    created_at: Seq<char>,
    input: CaptureInput,
) -> bool {
    &&& n.id@ == id
    &&& n.created_at@ == created_at
    &&& n.title@ == spec_derived_title(input.text.deep_view())
    &&& n.plaintext.deep_view() == input.text.deep_view()
    &&& n.html.deep_view() == input.html.deep_view()
    &&& n.source_url.deep_view() == input.source_url.deep_view()
    &&& n.text_quote.deep_view() == input.text.deep_view()
    &&& n.preview_path.deep_view() == input.preview.deep_view()
    &&& sorted_unique(n.tags.deep_view())
    &&& tag_union_holds(Seq::empty(), input.tags.deep_view(), n.tags.deep_view())
    &&& n.page_number == input.page_number
    &&& n.highlights@ == input.highlights@
}

/// Builds the note a capture persists.
pub fn make_note(id: String, created_at: String, input: CaptureInput) -> (n: Note)
    ensures
        is_created_note(n, id@, created_at@, input),
        note_wf(n),
{
    let title = derive_title(&input.text);
    let no_tags: Vec<String> = Vec::new();
    proof {
        assert(no_tags.deep_view() =~= Seq::<Seq<char>>::empty());
    }
    let tags = merge_tags(&no_tags, &input.tags);
    let text_quote = clone_opt_string(&input.text);
    Note {
        id,
        created_at,
        title,
        plaintext: input.text,
        html: input.html,
        source_url: input.source_url,
        text_quote,
        preview_path: input.preview,
        tags,
        page_number: input.page_number,
        highlights: input.highlights,
    }
}

} // verus!

//! The note store: the rows and the full-text index that mirrors them,
//! kept in lockstep by every operation. Notes are held newest-first by
//! creation stamp, ids are unique, and each index entry is exactly the
//! document of its note — the well-formedness every operation preserves.

use vstd::prelude::*;
use vstd::string::StringExecFns;
use crate::text::seq_le;
use crate::text::spec_trim;
use crate::text::lower_seq;
use crate::text::lemma_seq_le_total;
use crate::text::lemma_seq_le_trans;
use crate::text::str_eq;
use crate::text::str_le;
use crate::text::lower_str;
use crate::text::trim_str;
use crate::text::contains_sub;
use crate::merge::opt_text;
use crate::merge::spec_merge_text;
use crate::merge::spec_first_write;
use crate::merge::tag_union_holds;
use crate::merge::merge_text;
use crate::merge::merge_tags;
use crate::merge::first_write_preview;
use crate::merge::clone_tags;
use crate::merge::clone_opt_string;
use crate::note::Note;
use crate::note::CaptureInput;
use crate::note::NoteSummary;
use crate::note::NoteDetail;
use crate::note::ExportRecord;
use crate::note::StoreError;
use crate::note::note_wf;
use crate::note::note_like;
use crate::note::is_created_note;
use crate::note::make_note;
use crate::note::clone_note;
use crate::note::clone_rects;
use crate::note::snippet_of;
use crate::note::spec_snippet_opt;
use crate::text::sorted_unique;
use crate::index::IndexEntry;
use crate::index::spec_index_text;
use crate::index::spec_doc_matches;
use crate::index::index_entry_of;
use crate::fresh::new_note_id;
use crate::fresh::now_rfc3339;

verus! {

/// The store: the persistent rows and the index kept transactionally in
/// step with them.
pub struct NoteStore {
    pub notes: Vec<Note>,
    pub index: Vec<IndexEntry>,
}

/// How an appended note relates to what stood there: text and markup are
/// the merge of old and addition, tags are the union, the preview is
/// first-write-wins, and every creation-time field is untouched.
pub open spec fn is_appended(o: Note, n: Note, input: CaptureInput) -> bool {
    &&& n.id@ == o.id@
    &&& n.created_at@ == o.created_at@
    &&& n.title@ == o.title@
    &&& n.plaintext.deep_view() == Some(
        spec_merge_text(o.plaintext.deep_view(), opt_text(input.text.deep_view())),
    )
    &&& n.html.deep_view() == Some(
        spec_merge_text(o.html.deep_view(), opt_text(input.html.deep_view())),
    )
    &&& sorted_unique(n.tags.deep_view())
    &&& tag_union_holds(o.tags.deep_view(), input.tags.deep_view(), n.tags.deep_view())
    &&& n.preview_path.deep_view() == spec_first_write(
        o.preview_path.deep_view(),
        input.preview.deep_view(),
    )
    &&& n.source_url.deep_view() == o.source_url.deep_view()
    &&& n.text_quote.deep_view() == o.text_quote.deep_view()
    &&& n.page_number == o.page_number
    &&& n.highlights@ == o.highlights@
}

/// How a metadata update relates old and new note: the title is replaced
/// only when one is given, tags are unioned only when given, and nothing
/// else moves.
pub open spec fn is_metadata_updated(
    o: Note,
    n: Note,
    title: Option<Seq<char>>,
    tags: Option<Seq<Seq<char>>>,
) -> bool {
    &&& n.id@ == o.id@
    &&& n.created_at@ == o.created_at@
    &&& n.title@ == (match title {
        Some(t) => t,
        None => o.title@,
    })
    &&& (match tags {
        Some(a) => sorted_unique(n.tags.deep_view()) && tag_union_holds(
            o.tags.deep_view(),
            a,
            n.tags.deep_view(),
        ),
        None => n.tags.deep_view() == o.tags.deep_view(),
    })
    &&& n.plaintext.deep_view() == o.plaintext.deep_view()
    &&& n.html.deep_view() == o.html.deep_view()
    &&& n.source_url.deep_view() == o.source_url.deep_view()
    &&& n.text_quote.deep_view() == o.text_quote.deep_view()
    &&& n.preview_path.deep_view() == o.preview_path.deep_view()
    &&& n.page_number == o.page_number
    &&& n.highlights@ == o.highlights@
}

/// The list-shaped view of one note.
pub open spec fn is_summary_of(s: NoteSummary, n: Note) -> bool {
    &&& s.id@ == n.id@
    &&& s.title@ == n.title@
    &&& s.created_at@ == n.created_at@
    &&& s.source_url.deep_view() == n.source_url.deep_view()
    &&& s.tags.deep_view() == n.tags.deep_view()
    &&& s.snippet.deep_view() == spec_snippet_opt(n.plaintext.deep_view())
    &&& s.preview_path.deep_view() == n.preview_path.deep_view()
}

/// The full detail view of one note.
pub open spec fn is_detail_of(d: NoteDetail, n: Note) -> bool {
    &&& d.id@ == n.id@
    &&& d.created_at@ == n.created_at@
    &&& d.title@ == n.title@
    &&& d.plaintext.deep_view() == n.plaintext.deep_view()
    &&& d.html.deep_view() == n.html.deep_view()
    &&& d.source_url.deep_view() == n.source_url.deep_view()
    &&& d.text_quote.deep_view() == n.text_quote.deep_view()
    &&& d.tags.deep_view() == n.tags.deep_view()
    &&& d.preview_path.deep_view() == n.preview_path.deep_view()
    &&& d.page_number == n.page_number
    &&& d.highlights@ == n.highlights@
}

/// The sentinel detail record a missing id yields.
pub open spec fn is_missing_detail(d: NoteDetail) -> bool {
    &&& d.id@ == "not-found"@
    &&& d.created_at@ == ""@
    &&& d.title@ == "Not found"@
    &&& d.plaintext is None
    &&& d.html is None
    &&& d.source_url is None
    &&& d.text_quote is None
    &&& d.tags@.len() == 0
    &&& d.preview_path is None
    &&& d.page_number is None
    &&& d.highlights@.len() == 0
}

/// The export payload of one note.
pub open spec fn is_export_of(e: ExportRecord, n: Note) -> bool {
    &&& e.title@ == n.title@
    &&& e.created_at@ == n.created_at@
    &&& e.source_url.deep_view() == n.source_url.deep_view()
    &&& e.tags.deep_view() == n.tags.deep_view()
    &&& e.plaintext.deep_view() == n.plaintext.deep_view()
    &&& e.html.deep_view() == n.html.deep_view()
}

/// The export payload a missing id yields.
pub open spec fn is_missing_export(e: ExportRecord) -> bool {
    &&& e.title@ == "Not found"@
    &&& e.created_at@ == ""@
    &&& e.source_url is None
    &&& e.tags@.len() == 0
    &&& e.plaintext is None
    &&& e.html is None
}

/// The notes whose indexed document the query hits, in store order.
pub open spec fn spec_matching(notes: Seq<Note>, q: Seq<char>) -> Seq<Note>
    decreases notes.len(),
{
    if notes.len() == 0 {
        Seq::empty()
    } else {
        let rest = spec_matching(notes.drop_first(), q);
        if spec_doc_matches(spec_index_text(notes[0]), q) {
            seq![notes[0]] + rest
        } else {
            rest
        }
    }
}

proof fn lemma_matching_concat(a: Seq<Note>, b: Seq<Note>, q: Seq<char>)
    ensures
        spec_matching(a + b, q) == spec_matching(a, q) + spec_matching(b, q),
    decreases a.len(),
{
    if a.len() == 0 {
        assert(a + b =~= b);
        assert(spec_matching(a, q) + spec_matching(b, q) =~= spec_matching(b, q));
    } else {
        assert((a + b).len() > 0);
        assert((a + b)[0] == a[0]);
        assert((a + b).drop_first() =~= a.drop_first() + b);
        lemma_matching_concat(a.drop_first(), b, q);
        if spec_doc_matches(spec_index_text(a[0]), q) {
            assert(seq![a[0]] + (spec_matching(a.drop_first(), q) + spec_matching(b, q)) =~= (
            seq![a[0]] + spec_matching(a.drop_first(), q)) + spec_matching(b, q));
        }
    }
}

proof fn lemma_matching_step(notes: Seq<Note>, i: int, q: Seq<char>)
    requires
        0 <= i < notes.len(),
    ensures
        spec_doc_matches(spec_index_text(notes[i]), q) ==> spec_matching(notes.take(i + 1), q)
            == spec_matching(notes.take(i), q).push(notes[i]),
        !spec_doc_matches(spec_index_text(notes[i]), q) ==> spec_matching(notes.take(i + 1), q)
            == spec_matching(notes.take(i), q),
{
    let single = seq![notes[i]];
    assert(notes.take(i + 1) =~= notes.take(i) + single);
    lemma_matching_concat(notes.take(i), single, q);
    assert(single.drop_first() =~= Seq::<Note>::empty());
    assert(spec_matching(Seq::<Note>::empty(), q) =~= Seq::<Note>::empty());
    if spec_doc_matches(spec_index_text(notes[i]), q) {
        assert(spec_matching(single, q) =~= single);
        assert(spec_matching(notes.take(i), q) + single =~= spec_matching(
            notes.take(i),
            q,
        ).push(notes[i]));
    } else {
        assert(spec_matching(single, q) =~= Seq::<Note>::empty());
        assert(spec_matching(notes.take(i), q) + spec_matching(single, q) =~= spec_matching(
            notes.take(i),
            q,
        ));
    }
}

/// Replacing one row with a note of the same id and stamp, and its exact
/// index entry, keeps the store well-formed.
proof fn lemma_wf_after_update(pre: NoteStore, post: NoteStore, i: int, n2: Note, e2: IndexEntry)
    requires
        pre.wf(),
        0 <= i < pre.notes@.len(),
        post.notes@ == pre.notes@.update(i, n2),
        post.index@ == pre.index@.update(i, e2),
        note_wf(n2),
        n2.id@ == pre.notes@[i].id@,
        n2.created_at@ == pre.notes@[i].created_at@,
        e2.note_id@ == n2.id@,
        e2.text@ == spec_index_text(n2),
    ensures
        post.wf(),
{
    let s0 = pre.notes@;
    let s1 = post.notes@;
    assert forall|p: int| 0 <= p < s1.len() implies note_wf(#[trigger] s1[p]) by {
        if p != i {
            assert(s1[p] == s0[p]);
        }
    }
    assert forall|p: int, q: int| 0 <= p < q < s1.len() implies (#[trigger] s1[p]).id@ != (
    #[trigger] s1[q]).id@ by {
        assert(s1[p].id@ == s0[p].id@);
        assert(s1[q].id@ == s0[q].id@);
    }
    assert forall|p: int, q: int| 0 <= p < q < s1.len() implies seq_le(
        (#[trigger] s1[q]).created_at@,
        (#[trigger] s1[p]).created_at@,
    ) by {
        assert(s1[p].created_at@ == s0[p].created_at@);
        assert(s1[q].created_at@ == s0[q].created_at@);
    }
    assert forall|p: int| 0 <= p < s1.len() implies (#[trigger] post.index@[p]).note_id@
        == s1[p].id@ && post.index@[p].text@ == spec_index_text(s1[p]) by {
        if p != i {
            assert(post.index@[p] == pre.index@[p]);
            assert(s1[p] == s0[p]);
        }
    }
}

/// Removing one row together with its index entry keeps the store
/// well-formed.
proof fn lemma_wf_after_remove(pre: NoteStore, post: NoteStore, i: int)
    requires
        pre.wf(),
        0 <= i < pre.notes@.len(),
        post.notes@ == pre.notes@.remove(i),
        post.index@ == pre.index@.remove(i),
    ensures
        post.wf(),
{
    let s0 = pre.notes@;
    let s1 = post.notes@;
    assert forall|p: int| 0 <= p < s1.len() implies note_wf(#[trigger] s1[p]) by {
        if p < i {
            assert(s1[p] == s0[p]);
        } else {
            assert(s1[p] == s0[p + 1]);
        }
    }
    assert forall|p: int, q: int| 0 <= p < q < s1.len() implies (#[trigger] s1[p]).id@ != (
    #[trigger] s1[q]).id@ by {
        if p < i && q < i {
            assert(s1[p] == s0[p] && s1[q] == s0[q]);
        } else if p < i {
            assert(s1[p] == s0[p] && s1[q] == s0[q + 1]);
        } else {
            assert(s1[p] == s0[p + 1] && s1[q] == s0[q + 1]);
        }
    }
    assert forall|p: int, q: int| 0 <= p < q < s1.len() implies seq_le(
        (#[trigger] s1[q]).created_at@,
        (#[trigger] s1[p]).created_at@,
    ) by {
        if p < i && q < i {
            assert(s1[p] == s0[p] && s1[q] == s0[q]);
        } else if p < i {
            assert(s1[p] == s0[p] && s1[q] == s0[q + 1]);
        } else {
            assert(s1[p] == s0[p + 1] && s1[q] == s0[q + 1]);
        }
    }
    assert forall|p: int| 0 <= p < s1.len() implies (#[trigger] post.index@[p]).note_id@
        == s1[p].id@ && post.index@[p].text@ == spec_index_text(s1[p]) by {
        if p < i {
            assert(post.index@[p] == pre.index@[p]);
            assert(s1[p] == s0[p]);
        } else {
            assert(post.index@[p] == pre.index@[p + 1]);
            assert(s1[p] == s0[p + 1]);
        }
    }
}

impl NoteStore {
    /// Well-formedness: healthy notes, unique ids, newest-first order, and
    /// an index that mirrors the rows one for one.
    pub open spec fn wf(self) -> bool {
        &&& forall|i: int| 0 <= i < self.notes@.len() ==> note_wf(#[trigger] self.notes@[i])
        &&& forall|i: int, j: int|
            0 <= i < j < self.notes@.len() ==> self.notes@[i].id@ != self.notes@[j].id@
        &&& forall|i: int, j: int|
            0 <= i < j < self.notes@.len() ==> seq_le(
                self.notes@[j].created_at@,
                self.notes@[i].created_at@,
            )
        &&& self.index@.len() == self.notes@.len()
        &&& forall|i: int|
            0 <= i < self.notes@.len() ==> (#[trigger] self.index@[i]).note_id@
                == self.notes@[i].id@ && self.index@[i].text@ == spec_index_text(self.notes@[i])
    }

    /// A live note carries this id.
    pub open spec fn has_note(self, id: Seq<char>) -> bool {
        exists|i: int| 0 <= i < self.notes@.len() && (#[trigger] self.notes@[i]).id@ == id
    }

    pub fn new() -> (r: NoteStore)
        ensures
            r.wf(),
            r.notes@.len() == 0,
    {
        NoteStore { notes: Vec::new(), index: Vec::new() }
    }

    /// Point lookup of the row that carries `id`.
    fn find_index(&self, id: &String) -> (r: Option<usize>)
        ensures
            match r {
                Some(i) => i < self.notes@.len() && self.notes@[i as int].id@ == id@,
                None => !self.has_note(id@),
            },
    {
        let n = self.notes.len();
        let mut i: usize = 0;
        while i < n
            invariant
                n == self.notes@.len(),
                0 <= i <= n,
                forall|j: int| 0 <= j < i ==> (#[trigger] self.notes@[j]).id@ != id@,
            decreases n - i,
        {
            if str_eq(self.notes[i].id.as_str(), id.as_str()) {
                return Some(i);
            }
            i = i + 1;
        }
        None
    }

    /// Whether a note with this id is live.
    pub fn contains(&self, id: &String) -> (r: bool)
        ensures
            r == self.has_note(id@),
    {
        match self.find_index(id) {
            Some(i) => {
                proof {
                    assert(self.notes@[i as int].id@ == id@);
                }
                true
            },
            None => false,
        }
    }

    /// Point lookup: a copy of the note, or `None` for an id that is not
    /// live.
    pub fn get(&self, id: &String) -> (r: Option<Note>)
        ensures
            match r {
                Some(n) => exists|i: int|
                    0 <= i < self.notes@.len() && note_like(n, #[trigger] self.notes@[i])
                        && self.notes@[i].id@ == id@,
                None => !self.has_note(id@),
            },
    {
        match self.find_index(id) {
            Some(i) => {
                let n = clone_note(&self.notes[i]);
                proof {
                    assert(note_like(n, self.notes@[i as int]));
                }
                Some(n)
            },
            None => None,
        }
    }

    /// Creation with the identity chosen by the caller: the deterministic
    /// core of `create`, also the path a persisted row is reloaded through.
    /// Fails without effect if the id is already taken.
    pub fn create_with(&mut self, id: String, created_at: String, input: CaptureInput) -> (r:
        Result<(), StoreError>)
        requires
            old(self).wf(),
        ensures
            final(self).wf(),
            old(self).has_note(id@) ==> r == Err::<(), StoreError>(StoreError::IdCollision)
                && final(self).notes@ == old(self).notes@ && final(self).index@ == old(
                self,
            ).index@,
            !old(self).has_note(id@) ==> r == Ok::<(), StoreError>(()) && exists|k: int|
                0 <= k <= old(self).notes@.len() && final(self).notes@ == old(
                    self,
                ).notes@.insert(k, #[trigger] final(self).notes@[k]) && is_created_note(
                    final(self).notes@[k],
                    id@,
                    created_at@,
                    input,
                ),
    {
        if self.contains(&id) {
            return Err(StoreError::IdCollision);
        }
        let ghost pre0 = *self;
        let n = make_note(id, created_at, input);
        let ghost nn0 = n;
        let e = index_entry_of(&n);
        proof {
            assert(!pre0.has_note(n.id@));
        }
        self.insert_sorted_note(n, e);
        proof {
            let k = choose|k: int|
                0 <= k <= pre0.notes@.len() && self.notes@ == pre0.notes@.insert(
                    k,
                    #[trigger] self.notes@[k],
                ) && self.notes@[k] == nn0;
            assert(is_created_note(self.notes@[k], id@, created_at@, input));
        }
        Ok(())
    }

    /// Reinserts a persisted note exactly as stored, together with its
    /// index entry: the reload path after a restart. Nothing is derived or
    /// merged — the note enters the store verbatim, at its place in the
    /// newest-first order. Fails without effect if the id is already live.
    pub fn restore(&mut self, n: Note) -> (r: Result<(), StoreError>)
        requires
            old(self).wf(),
            note_wf(n),
        ensures
            final(self).wf(),
            old(self).has_note(n.id@) ==> r == Err::<(), StoreError>(StoreError::IdCollision)
                && final(self).notes@ == old(self).notes@ && final(self).index@ == old(
                self,
            ).index@,
            !old(self).has_note(n.id@) ==> r == Ok::<(), StoreError>(()) && exists|k: int|
                0 <= k <= old(self).notes@.len() && final(self).notes@ == old(
                    self,
                ).notes@.insert(k, #[trigger] final(self).notes@[k]) && note_like(
                    final(self).notes@[k],
                    n,
                ),
    {
        if self.contains(&n.id) {
            return Err(StoreError::IdCollision);
        }
        let ghost pre0 = *self;
        let ghost nn0 = n;
        let e = index_entry_of(&n);
        self.insert_sorted_note(n, e);
        proof {
            let k = choose|k: int|
                0 <= k <= pre0.notes@.len() && self.notes@ == pre0.notes@.insert(
                    k,
                    #[trigger] self.notes@[k],
                ) && self.notes@[k] == nn0;
            assert(note_like(self.notes@[k], nn0));
        }
        Ok(())
    }

    /// Inserts a note known to be fresh at its place in the newest-first
    /// order, together with its exact index entry.
    fn insert_sorted_note(&mut self, n: Note, e: IndexEntry)
        requires
            old(self).wf(),
            !old(self).has_note(n.id@),
            note_wf(n),
            e.note_id@ == n.id@,
            e.text@ == spec_index_text(n),
        ensures
            final(self).wf(),
            exists|k: int|
                0 <= k <= old(self).notes@.len() && final(self).notes@ == old(
                    self,
                ).notes@.insert(k, #[trigger] final(self).notes@[k]) && final(self).notes@[k]
                    == n,
    {
        let len = self.notes.len();
        let mut k: usize = 0;
        while k < len && !str_le(self.notes[k].created_at.as_str(), n.created_at.as_str())
            invariant
                len == self.notes@.len(),
                0 <= k <= len,
                old(self).wf(),
                *self == *old(self),
                forall|j: int|
                    0 <= j < k ==> seq_le(
                        n.created_at@,
                        (#[trigger] self.notes@[j]).created_at@,
                    ),
            decreases len - k,
        {
            proof {
                lemma_seq_le_total(self.notes@[k as int].created_at@, n.created_at@);
            }
            k = k + 1;
        }
        proof {
            assert forall|j: int| k <= j < len implies seq_le(
                (#[trigger] self.notes@[j]).created_at@,
                n.created_at@,
            ) by {
                assert(seq_le(self.notes@[k as int].created_at@, n.created_at@));
                if j > k {
                    lemma_seq_le_trans(
                        self.notes@[j].created_at@,
                        self.notes@[k as int].created_at@,
                        n.created_at@,
                    );
                }
            }
        }
        let ghost pre = *self;
        let ghost nn = n;
        self.notes.insert(k, n);
        self.index.insert(k, e);
        proof {
            let s1 = self.notes@;
            let s0 = pre.notes@;
            assert(s1 == s0.insert(k as int, nn));
            assert(self.notes@[k as int] == nn);
            assert forall|i: int| 0 <= i < s1.len() implies note_wf(#[trigger] s1[i]) by {
                if i < k {
                    assert(s1[i] == s0[i]);
                } else if i > k {
                    assert(s1[i] == s0[i - 1]);
                }
            }
            assert forall|i: int, j: int| 0 <= i < j < s1.len() implies (#[trigger] s1[i]).id@ != (
            #[trigger] s1[j]).id@ by {
                if i < k && j < k {
                    assert(s1[i] == s0[i] && s1[j] == s0[j]);
                } else if i > k && j > k {
                    assert(s1[i] == s0[i - 1] && s1[j] == s0[j - 1]);
                } else if i < k && j > k {
                    assert(s1[i] == s0[i] && s1[j] == s0[j - 1]);
                } else if i == k {
                    assert(s1[j] == s0[j - 1]);
                    assert(!pre.has_note(nn.id@));
                } else {
                    assert(j == k);
                    assert(s1[i] == s0[i]);
                    assert(!pre.has_note(nn.id@));
                }
            }
            assert forall|i: int, j: int| 0 <= i < j < s1.len() implies seq_le(
                (#[trigger] s1[j]).created_at@,
                (#[trigger] s1[i]).created_at@,
            ) by {
                if i < k && j < k {
                    assert(s1[i] == s0[i] && s1[j] == s0[j]);
                } else if i > k && j > k {
                    assert(s1[i] == s0[i - 1] && s1[j] == s0[j - 1]);
                } else if i < k && j > k {
                    assert(s1[i] == s0[i] && s1[j] == s0[j - 1]);
                } else if i == k {
                    assert(s1[j] == s0[j - 1]);
                } else {
                    assert(j == k && s1[i] == s0[i]);
                }
            }
            assert forall|i: int| 0 <= i < s1.len() implies (#[trigger] self.index@[i]).note_id@
                == s1[i].id@ && self.index@[i].text@ == spec_index_text(s1[i]) by {
                if i < k {
                    assert(self.index@[i] == pre.index@[i]);
                    assert(s1[i] == s0[i]);
                } else if i > k {
                    assert(self.index@[i] == pre.index@[i - 1]);
                    assert(s1[i] == s0[i - 1]);
                }
            }
        }
    }

    /// Replaces a row and its index entry together: the delete-then-insert
    /// update that keeps the two in the same atomic step.
    fn set_note_at(&mut self, i: usize, n: Note, e: IndexEntry)
        requires
            i < old(self).notes@.len(),
            old(self).index@.len() == old(self).notes@.len(),
        ensures
            final(self).notes@ == old(self).notes@.update(i as int, n),
            final(self).index@ == old(self).index@.update(i as int, e),
    {
        self.notes.remove(i);
        self.notes.insert(i, n);
        self.index.remove(i);
        self.index.insert(i, e);
        proof {
            assert(self.notes@ =~= old(self).notes@.update(i as int, n));
            assert(self.index@ =~= old(self).index@.update(i as int, e));
        }
    }

    /// Append: grows text, markup and tags of the note carrying `id`, sets
    /// the preview only if none is set, leaves every creation-time field
    /// alone, and re-synchronizes the index entry in the same step.
    pub fn append(&mut self, id: &String, input: CaptureInput) -> (r: Result<(), StoreError>)
        requires
            old(self).wf(),
        ensures
            final(self).wf(),
            !old(self).has_note(id@) ==> r == Err::<(), StoreError>(StoreError::NotFound) && final(self).notes@ == old(self).notes@ && final(self).index@ == old(self).index@,
            old(self).has_note(id@) ==> r == Ok::<(), StoreError>(()) && exists|i: int|
                0 <= i < old(self).notes@.len() && old(self).notes@[i].id@ == id@ && final(self).notes@ == old(self).notes@.update(i, #[trigger] final(self).notes@[i])
                    && is_appended(old(self).notes@[i], final(self).notes@[i], input),
    {
        let i = match self.find_index(id) {
            Some(i) => i,
            None => { return Err(StoreError::NotFound) },
        };
        let add_text = match &input.text {
            Some(t) => t.clone(),
            None => String::new(),
        };
        let add_html = match &input.html {
            Some(t) => t.clone(),
            None => String::new(),
        };
        let new_pt = merge_text(&self.notes[i].plaintext, add_text.as_str());
        let new_html = merge_text(&self.notes[i].html, add_html.as_str());
        let new_tags = merge_tags(&self.notes[i].tags, &input.tags);
        let new_preview = first_write_preview(&self.notes[i].preview_path, &input.preview);
        let n2 = Note {
            id: self.notes[i].id.clone(),
            created_at: self.notes[i].created_at.clone(),
            title: self.notes[i].title.clone(),
            plaintext: Some(new_pt),
            html: Some(new_html),
            source_url: clone_opt_string(&self.notes[i].source_url),
            text_quote: clone_opt_string(&self.notes[i].text_quote),
            preview_path: new_preview,
            tags: new_tags,
            page_number: self.notes[i].page_number,
            highlights: clone_rects(&self.notes[i].highlights),
        };
        let e2 = index_entry_of(&n2);
        let ghost pre = *self;
        let ghost o = self.notes@[i as int];
        self.set_note_at(i, n2, e2);
        proof {
            assert(is_appended(o, self.notes@[i as int], input));
            lemma_wf_after_update(pre, *self, i as int, self.notes@[i as int], self.index@[i as int]);
        }
        Ok(())
    }

    /// Metadata update: replaces the title when one is given, unions the
    /// given tags into the set, and touches nothing else.
    pub fn update_metadata(&mut self, id: &String, title: Option<String>, tags: Option<
        Vec<String>,
    >) -> (r: Result<(), StoreError>)
        requires
            old(self).wf(),
        ensures
            final(self).wf(),
            !old(self).has_note(id@) ==> r == Err::<(), StoreError>(StoreError::NotFound) && final(self).notes@ == old(self).notes@ && final(self).index@ == old(self).index@,
            old(self).has_note(id@) ==> r == Ok::<(), StoreError>(()) && exists|i: int|
                0 <= i < old(self).notes@.len() && old(self).notes@[i].id@ == id@ && final(self).notes@ == old(self).notes@.update(i, #[trigger] final(self).notes@[i])
                    && is_metadata_updated(
                    old(self).notes@[i],
                    final(self).notes@[i],
                    title.deep_view(),
                    tags.deep_view(),
                ),
    {
        let i = match self.find_index(id) {
            Some(i) => i,
            None => { return Err(StoreError::NotFound) },
        };
        let new_title = match &title {
            Some(t) => t.clone(),
            None => self.notes[i].title.clone(),
        };
        let new_tags = match &tags {
            Some(v) => merge_tags(&self.notes[i].tags, v),
            None => clone_tags(&self.notes[i].tags),
        };
        let n2 = Note {
            id: self.notes[i].id.clone(),
            created_at: self.notes[i].created_at.clone(),
            title: new_title,
            plaintext: clone_opt_string(&self.notes[i].plaintext),
            html: clone_opt_string(&self.notes[i].html),
            source_url: clone_opt_string(&self.notes[i].source_url),
            text_quote: clone_opt_string(&self.notes[i].text_quote),
            preview_path: clone_opt_string(&self.notes[i].preview_path),
            tags: new_tags,
            page_number: self.notes[i].page_number,
            highlights: clone_rects(&self.notes[i].highlights),
        };
        let e2 = index_entry_of(&n2);
        let ghost pre = *self;
        let ghost o = self.notes@[i as int];
        self.set_note_at(i, n2, e2);
        proof {
            assert(is_metadata_updated(
                o,
                self.notes@[i as int],
                title.deep_view(),
                tags.deep_view(),
            ));
            lemma_wf_after_update(pre, *self, i as int, self.notes@[i as int], self.index@[i as int]);
        }
        Ok(())
    }

    /// Delete: removes the row and its index entry together. Deleting an id
    /// that is not live is no error; the affected count says what happened,
    /// and afterwards the id is gone either way.
    pub fn delete(&mut self, id: &String) -> (r: usize)
        requires
            old(self).wf(),
        ensures
            final(self).wf(),
            !old(self).has_note(id@) ==> r == 0 && final(self).notes@ == old(self).notes@ && final(self).index@ == old(self).index@,
            old(self).has_note(id@) ==> r == 1 && exists|i: int|
                0 <= i < old(self).notes@.len() && (#[trigger] old(self).notes@[i]).id@ == id@
                    && final(self).notes@ == old(self).notes@.remove(i) && final(self).index@
                    == old(self).index@.remove(i),
            !final(self).has_note(id@),
    {
        match self.find_index(id) {
            None => 0,
            Some(i) => {
                let ghost pre = *self;
                self.notes.remove(i);
                self.index.remove(i);
                proof {
                    lemma_wf_after_remove(pre, *self, i as int);
                    assert forall|j: int| 0 <= j < self.notes@.len() implies (
                    #[trigger] self.notes@[j]).id@ != id@ by {
                        if j < i {
                            assert(self.notes@[j] == pre.notes@[j]);
                        } else {
                            assert(self.notes@[j] == pre.notes@[j + 1]);
                        }
                    }
                }
                1
            },
        }
    }

    /// Capture: draws a fresh id, stamps the current time, derives the
    /// title and persists the note together with its index entry. The one
    /// failure, without effect, is the drawn id colliding with a live one.
    pub fn create(&mut self, input: CaptureInput) -> (r: Result<String, StoreError>)
        requires
            old(self).wf(),
        ensures
            final(self).wf(),
            r matches Err(e) ==> e == StoreError::IdCollision && final(self).notes@ == old(
                self,
            ).notes@ && final(self).index@ == old(self).index@ && old(self).notes@.len() > 0,
            r matches Ok(id) ==> !old(self).has_note(id@) && exists|k: int|
                0 <= k <= old(self).notes@.len() && final(self).notes@ == old(
                    self,
                ).notes@.insert(k, #[trigger] final(self).notes@[k]) && is_created_note(
                    final(self).notes@[k],
                    id@,
                    final(self).notes@[k].created_at@,
                    input,
                ),
    {
        let id = new_note_id();
        let created_at = now_rfc3339();
        let id_out = id.clone();
        match self.create_with(id, created_at, input) {
            Ok(()) => Ok(id_out),
            Err(e) => Err(e),
        }
    }

    /// The list record of one note.
    fn summary_of(n: &Note) -> (s: NoteSummary)
        ensures
            is_summary_of(s, *n),
    {
        NoteSummary {
            id: n.id.clone(),
            title: n.title.clone(),
            created_at: n.created_at.clone(),
            source_url: clone_opt_string(&n.source_url),
            tags: clone_tags(&n.tags),
            snippet: snippet_of(&n.plaintext),
            preview_path: clone_opt_string(&n.preview_path),
        }
    }

    /// Summaries of the first `limit` rows, in store order: newest first,
    /// since the rows are kept so.
    fn summaries_prefix(&self, limit: usize) -> (r: Vec<NoteSummary>)
        ensures
            r@.len() == vstd::math::min(limit as int, self.notes@.len() as int),
            forall|j: int| 0 <= j < r@.len() ==> is_summary_of(r@[j], self.notes@[j]),
    {
        let n = self.notes.len();
        let k = if limit < n {
            limit
        } else {
            n
        };
        let mut r: Vec<NoteSummary> = Vec::new();
        let mut i: usize = 0;
        while i < k
            invariant
                0 <= i <= k,
                k <= self.notes@.len(),
                r@.len() == i,
                forall|j: int| 0 <= j < i ==> is_summary_of(r@[j], self.notes@[j]),
            decreases k - i,
        {
            let s = Self::summary_of(&self.notes[i]);
            r.push(s);
            i = i + 1;
        }
        r
    }

    /// Listing: summaries of the newest notes, most recent first, capped at
    /// two hundred.
    pub fn list_recent(&self) -> (r: Vec<NoteSummary>)
        ensures
            r@.len() == vstd::math::min(200, self.notes@.len() as int),
            forall|j: int| 0 <= j < r@.len() ==> is_summary_of(r@[j], self.notes@[j]),
    {
        self.summaries_prefix(200)
    }

    /// Search: a blank query lists the newest hundred; otherwise the notes
    /// whose indexed document contains the trimmed, case-folded query, in
    /// store order (newest first), capped at one hundred. Every result is a
    /// live note.
    pub fn search(&self, q: &String) -> (r: Vec<NoteSummary>)
        requires
            self.wf(),
        ensures
            spec_trim(q@).len() == 0 ==> r@.len() == vstd::math::min(
                100,
                self.notes@.len() as int,
            ) && (forall|j: int| 0 <= j < r@.len() ==> is_summary_of(r@[j], self.notes@[j])),
            spec_trim(q@).len() > 0 ==> r@.len() == vstd::math::min(
                100,
                spec_matching(self.notes@, q@).len() as int,
            ) && (forall|j: int|
                0 <= j < r@.len() ==> is_summary_of(r@[j], spec_matching(self.notes@, q@)[j])),
            forall|j: int| 0 <= j < r@.len() ==> self.has_note((#[trigger] r@[j]).id@),
    {
        let tq = trim_str(q.as_str());
        if tq.as_str().is_empty() {
            let r = self.summaries_prefix(100);
            proof {
                assert forall|j: int| 0 <= j < r@.len() implies self.has_note(
                    (#[trigger] r@[j]).id@,
                ) by {
                    assert(is_summary_of(r@[j], self.notes@[j]));
                    assert(self.notes@[j].id@ == r@[j].id@);
                }
            }
            return r;
        }
        let needle = lower_str(tq.as_str());
        let n = self.notes.len();
        let mut out: Vec<NoteSummary> = Vec::new();
        let mut i: usize = 0;
        proof {
            assert(self.notes@.take(0) =~= Seq::<Note>::empty());
        }
        while i < n && out.len() < 100
            invariant
                self.wf(),
                n == self.notes@.len(),
                0 <= i <= n,
                needle@ == lower_seq(spec_trim(q@)),
                out@.len() == spec_matching(self.notes@.take(i as int), q@).len(),
                out@.len() <= 100,
                forall|j: int|
                    0 <= j < out@.len() ==> is_summary_of(
                        out@[j],
                        spec_matching(self.notes@.take(i as int), q@)[j],
                    ),
                forall|j: int| 0 <= j < out@.len() ==> self.has_note((#[trigger] out@[j]).id@),
            decreases n - i,
        {
            let hit = contains_sub(self.index[i].text.as_str(), needle.as_str());
            proof {
                assert(self.index@[i as int].text@ == spec_index_text(self.notes@[i as int]));
                lemma_matching_step(self.notes@, i as int, q@);
            }
            if hit {
                let s = Self::summary_of(&self.notes[i]);
                out.push(s);
                proof {
                    let m1 = spec_matching(self.notes@.take(i + 1), q@);
                    let m0 = spec_matching(self.notes@.take(i as int), q@);
                    assert(m1 == m0.push(self.notes@[i as int]));
                    assert forall|j: int| 0 <= j < out@.len() implies is_summary_of(
                        out@[j],
                        m1[j],
                    ) by {
                        if j < out@.len() - 1 {
                            assert(m1[j] == m0[j]);
                        } else {
                            assert(m1[j] == self.notes@[i as int]);
                        }
                    }
                    assert(self.notes@[i as int].id@ == out@[out@.len() - 1].id@);
                }
            }
            i = i + 1;
        }
        proof {
            let m = spec_matching(self.notes@, q@);
            if i == n {
                assert(self.notes@.take(n as int) =~= self.notes@);
            } else {
                assert(out@.len() == 100);
                assert(self.notes@.take(i as int) + self.notes@.skip(i as int) =~= self.notes@);
                lemma_matching_concat(
                    self.notes@.take(i as int),
                    self.notes@.skip(i as int),
                    q@,
                );
                let m0 = spec_matching(self.notes@.take(i as int), q@);
                assert(m == m0 + spec_matching(self.notes@.skip(i as int), q@));
                assert(m.len() >= 100);
                assert forall|j: int| 0 <= j < out@.len() implies is_summary_of(out@[j], m[j]) by {
                    assert(m[j] == m0[j]);
                }
            }
        }
        out
    }

    /// Detail lookup: the full record, or the well-defined sentinel for an
    /// id that is not live.
    pub fn detail(&self, id: &String) -> (r: NoteDetail)
        ensures
            self.has_note(id@) ==> exists|i: int|
                0 <= i < self.notes@.len() && (#[trigger] self.notes@[i]).id@ == id@
                    && is_detail_of(r, self.notes@[i]),
            !self.has_note(id@) ==> is_missing_detail(r),
    {
        match self.find_index(id) {
            Some(i) => {
                let n = &self.notes[i];
                let d = NoteDetail {
                    id: n.id.clone(),
                    created_at: n.created_at.clone(),
                    title: n.title.clone(),
                    plaintext: clone_opt_string(&n.plaintext),
                    html: clone_opt_string(&n.html),
                    source_url: clone_opt_string(&n.source_url),
                    text_quote: clone_opt_string(&n.text_quote),
                    tags: clone_tags(&n.tags),
                    preview_path: clone_opt_string(&n.preview_path),
                    page_number: n.page_number,
                    highlights: clone_rects(&n.highlights),
                };
                proof {
                    assert(is_detail_of(d, self.notes@[i as int]));
                }
                d
            },
            None => NoteDetail {
                id: String::from_str("not-found"),
                created_at: String::from_str(""),
                title: String::from_str("Not found"),
                plaintext: None,
                html: None,
                source_url: None,
                text_quote: None,
                tags: Vec::new(),
                preview_path: None,
                page_number: None,
                highlights: Vec::new(),
            },
        }
    }

    /// The export payload, or its "Not found" shape for an id that is not
    /// live.
    pub fn export(&self, id: &String) -> (r: ExportRecord)
        ensures
            self.has_note(id@) ==> exists|i: int|
                0 <= i < self.notes@.len() && (#[trigger] self.notes@[i]).id@ == id@
                    && is_export_of(r, self.notes@[i]),
            !self.has_note(id@) ==> is_missing_export(r),
    {
        match self.find_index(id) {
            Some(i) => {
                let n = &self.notes[i];
                let e = ExportRecord {
                    title: n.title.clone(),
                    created_at: n.created_at.clone(),
                    source_url: clone_opt_string(&n.source_url),
                    tags: clone_tags(&n.tags),
                    plaintext: clone_opt_string(&n.plaintext),
                    html: clone_opt_string(&n.html),
                };
                proof {
                    assert(is_export_of(e, self.notes@[i as int]));
                }
                e
            },
            None => ExportRecord {
                title: String::from_str("Not found"),
                created_at: String::from_str(""),
                source_url: None,
                tags: Vec::new(),
                plaintext: None,
                html: None,
            },
        }
    }
}

/// Law: a note that was just created is read back exactly. Under the
/// store's unique ids, the one live row carrying the created id is the
/// created note itself, so a lookup by that id sees precisely the captured
/// fields.
pub proof fn lemma_created_note_read_back(
    s: NoteStore,
    id: Seq<char>,
    created_at: Seq<char>,
    input: CaptureInput,
    k: int,
)
    requires
        s.wf(),
        0 <= k < s.notes@.len(),
        is_created_note(s.notes@[k], id, created_at, input),
    ensures
        s.has_note(id),
        forall|i: int| 0 <= i < s.notes@.len() && (#[trigger] s.notes@[i]).id@ == id ==> i == k,
{
    assert(s.notes@[k].id@ == id);
    assert forall|i: int|
        0 <= i < s.notes@.len() && (#[trigger] s.notes@[i]).id@ == id implies i == k by {
        if i < k {
            assert(s.notes@[i].id@ != s.notes@[k].id@);
        } else if i > k {
            assert(s.notes@[k].id@ != s.notes@[i].id@);
        }
    }
}

/// Law: an append never touches what creation fixed. The id, creation
/// stamp, title, source, text quote, page number and highlights of the
/// note after an append are those of the note before it.
pub proof fn lemma_append_keeps_creation_fields(o: Note, n: Note, input: CaptureInput)
    requires
        is_appended(o, n, input),
    ensures
        n.id@ == o.id@,
        n.created_at@ == o.created_at@,
        n.title@ == o.title@,
        n.source_url.deep_view() == o.source_url.deep_view(),
        n.text_quote.deep_view() == o.text_quote.deep_view(),
        n.page_number == o.page_number,
        n.highlights@ == o.highlights@,
{
}

/// Law: what a capture fixed, a later append anywhere in the store leaves
/// in place. After any append step, the row that held a created note still
/// carries the captured source, quote, page number and highlights.
pub proof fn lemma_creation_survives_append(
    pre: NoteStore,
    post: NoteStore,
    i: int,
    input: CaptureInput,
    id: Seq<char>,
    created_at: Seq<char>,
    capture: CaptureInput,
    k: int,
)
    requires
        0 <= k < pre.notes@.len(),
        is_created_note(pre.notes@[k], id, created_at, capture),
        0 <= i < pre.notes@.len(),
        post.notes@ == pre.notes@.update(i, post.notes@[i]),
        is_appended(pre.notes@[i], post.notes@[i], input),
    ensures
        k < post.notes@.len(),
        post.notes@[k].id@ == id,
        post.notes@[k].created_at@ == created_at,
        post.notes@[k].source_url.deep_view() == capture.source_url.deep_view(),
        post.notes@[k].text_quote.deep_view() == capture.text.deep_view(),
        post.notes@[k].page_number == capture.page_number,
        post.notes@[k].highlights@ == capture.highlights@,
{
    if i != k {
        assert(post.notes@[k] == pre.notes@[k]);
    }
}

/// Law: a preview path, once set, survives every later append, whatever
/// candidate the later call supplies.
pub proof fn lemma_preview_first_write_wins(o: Note, n: Note, input: CaptureInput)
    requires
        is_appended(o, n, input),
        o.preview_path.deep_view() is Some,
    ensures
        n.preview_path.deep_view() == o.preview_path.deep_view(),
{
}

/// Law: appended text only grows. An empty (or absent) addition leaves the
/// stored text as it was, and any addition keeps the whole prior text as a
/// prefix; the same holds for the markup.
pub proof fn lemma_append_grows_text(o: Note, n: Note, input: CaptureInput)
    requires
        is_appended(o, n, input),
    ensures
        opt_text(input.text.deep_view()).len() == 0 ==> opt_text(n.plaintext.deep_view())
            == opt_text(o.plaintext.deep_view()),
        o.plaintext.deep_view() matches Some(p) ==> opt_text(n.plaintext.deep_view()).take(
            p.len() as int,
        ) =~= p,
        opt_text(input.html.deep_view()).len() == 0 ==> opt_text(n.html.deep_view()) == opt_text(
            o.html.deep_view(),
        ),
        o.html.deep_view() matches Some(h) ==> opt_text(n.html.deep_view()).take(h.len() as int)
            =~= h,
{
    crate::merge::lemma_merge_text_grows(
        o.plaintext.deep_view(),
        opt_text(input.text.deep_view()),
    );
    crate::merge::lemma_merge_text_grows(o.html.deep_view(), opt_text(input.html.deep_view()));
}

/// Law: filtering keeps the store's order. Every note the query hits is a
/// live note, and the hits stand in the same newest-first order the rows
/// are kept in — so search results are ordered by creation stamp
/// descending, like the listing.
pub proof fn lemma_matching_sorted(notes: Seq<Note>, q: Seq<char>)
    requires
        forall|i: int, j: int|
            0 <= i < j < notes.len() ==> seq_le(
                (#[trigger] notes[j]).created_at@,
                (#[trigger] notes[i]).created_at@,
            ),
    ensures
        forall|i: int|
            0 <= i < spec_matching(notes, q).len() ==> notes.contains(
                #[trigger] spec_matching(notes, q)[i],
            ),
        forall|i: int, j: int|
            0 <= i < j < spec_matching(notes, q).len() ==> seq_le(
                (#[trigger] spec_matching(notes, q)[j]).created_at@,
                (#[trigger] spec_matching(notes, q)[i]).created_at@,
            ),
    decreases notes.len(),
{
    if notes.len() == 0 {
    } else {
        let tail = notes.drop_first();
        lemma_matching_sorted(tail, q);
        let mt = spec_matching(tail, q);
        let m = spec_matching(notes, q);
        assert forall|i: int| 0 <= i < mt.len() implies notes.contains(#[trigger] mt[i]) by {
            assert(tail.contains(mt[i]));
            let k = choose|k: int| 0 <= k < tail.len() && tail[k] == mt[i];
            assert(notes[k + 1] == mt[i]);
        }
        assert forall|i: int| 0 <= i < mt.len() implies seq_le(
            (#[trigger] mt[i]).created_at@,
            notes[0].created_at@,
        ) by {
            assert(tail.contains(mt[i]));
            let k = choose|k: int| 0 <= k < tail.len() && tail[k] == mt[i];
            assert(notes[k + 1] == mt[i]);
            assert(seq_le(notes[k + 1].created_at@, notes[0].created_at@));
        }
        if spec_doc_matches(spec_index_text(notes[0]), q) {
            assert(m == seq![notes[0]] + mt);
            assert forall|i: int| 0 <= i < m.len() implies notes.contains(#[trigger] m[i]) by {
                if i == 0 {
                    assert(m[0] == notes[0]);
                } else {
                    assert(m[i] == mt[i - 1]);
                }
            }
            assert forall|i: int, j: int| 0 <= i < j < m.len() implies seq_le(
                (#[trigger] m[j]).created_at@,
                (#[trigger] m[i]).created_at@,
            ) by {
                if i == 0 {
                    assert(m[j] == mt[j - 1]);
                    assert(m[0] == notes[0]);
                } else {
                    assert(m[i] == mt[i - 1] && m[j] == mt[j - 1]);
                }
            }
        } else {
            assert(m == mt);
        }
    }
}

/// Law: once an id is gone from the store, no result list drawn from the
/// live notes carries it; in particular a search after a delete never
/// returns the deleted note.
pub proof fn lemma_absent_id_not_in_results(
    s: NoteStore,
    id: Seq<char>,
    results: Seq<NoteSummary>,
)
    requires
        !s.has_note(id),
        forall|j: int| 0 <= j < results.len() ==> s.has_note((#[trigger] results[j]).id@),
    ensures
        forall|j: int| 0 <= j < results.len() ==> (#[trigger] results[j]).id@ != id,
{
}

} // verus!

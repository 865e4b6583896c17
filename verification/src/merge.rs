//! The merge engine: pure functions saying how newly captured material
//! combines with what a note already holds. Text and markup only grow,
//! tags are a sorted union, and a preview path is first-write-wins.

use vstd::prelude::*;
use vstd::string::StringExecFns;
use crate::text::spec_trim;
use crate::text::seq_le;
use crate::text::seq_lt;
use crate::text::sorted_unique;
use crate::text::trim_str;
use crate::text::str_le;
use crate::text::lemma_seq_le_antisymm;
use crate::text::lemma_seq_le_total;
use crate::text::lemma_seq_lt_trans;
use crate::text::lemma_sorted_unique_same_elements;

verus! {

/// The text of an optional field: the empty sequence when absent.
pub open spec fn opt_text(o: Option<Seq<char>>) -> Seq<char> {
    match o {
        Some(s) => s,
        None => Seq::empty(),
    }
}

/// How appended text combines with existing text: an empty addition is a
/// no-op, an empty or absent existing text is replaced, and otherwise the
/// addition follows a blank line.
pub open spec fn spec_merge_text(existing: Option<Seq<char>>, addition: Seq<char>) -> Seq<char> {
    match existing {
        None => addition,
        Some(prev) => if addition.len() == 0 {
            prev
        } else if prev.len() == 0 {
            addition
        } else {
            prev + "\n\n"@ + addition
        },
    }
}

pub fn merge_text(existing: &Option<String>, addition: &str) -> (r: String)
    ensures
        r@ == spec_merge_text(existing.deep_view(), addition@),
{
    match existing {
        None => String::from_str(addition),
        Some(prev) => {
            if addition.is_empty() {
                prev.clone()
            } else if prev.as_str().is_empty() {
                String::from_str(addition)
            } else {
                let mut r = prev.clone();
                r.append("\n\n");
                r.append(addition);
                r
            }
        },
    }
}

/// A preview path is only ever written once: an existing path wins over any
/// later candidate.
pub open spec fn spec_first_write(
    existing: Option<Seq<char>>,
    candidate: Option<Seq<char>>,
) -> Option<Seq<char>> {
    match existing {
        Some(p) => Some(p),
        None => candidate,
    }
}

pub fn first_write_preview(existing: &Option<String>, candidate: &Option<String>) -> (r: Option<
    String,
>)
    ensures
        r.deep_view() == spec_first_write(existing.deep_view(), candidate.deep_view()),
{
    match existing {
        Some(p) => Some(p.clone()),
        None => match candidate {
            Some(c) => Some(c.clone()),
            None => None,
        },
    }
}

/// `t` is contributed by the additions: it is the trimmed form of one of
/// them, and not empty.
pub open spec fn spec_added_tag(additions: Seq<Seq<char>>, t: Seq<char>) -> bool {
    t.len() > 0 && exists|i: int|
        0 <= i < additions.len() && #[trigger] spec_trim(additions[i]) == t
}

/// What the tag set holds after a union: the old tags and every trimmed,
/// non-empty addition.
pub open spec fn tag_union_holds(
    existing: Seq<Seq<char>>,
    additions: Seq<Seq<char>>,
    merged: Seq<Seq<char>>,
) -> bool {
    forall|t: Seq<char>|
        #[trigger] merged.contains(t) <==> existing.contains(t) || spec_added_tag(additions, t)
}

pub fn clone_tags(v: &Vec<String>) -> (r: Vec<String>)
    ensures
        r.deep_view() == v.deep_view(),
        r@.len() == v@.len(),
{
    let mut r: Vec<String> = Vec::new();
    let mut i: usize = 0;
    while i < v.len()
        invariant
            0 <= i <= v@.len(),
            r@.len() == i,
            forall|j: int| 0 <= j < i ==> r.deep_view()[j] == v.deep_view()[j],
        decreases v@.len() - i,
    {
        r.push(v[i].clone());
        i = i + 1;
    }
    proof {
        assert(r.deep_view() =~= v.deep_view());
    }
    r
}

pub fn clone_opt_string(o: &Option<String>) -> (r: Option<String>)
    ensures
        r.deep_view() == o.deep_view(),
{
    match o {
        None => None,
        Some(s) => Some(s.clone()),
    }
}

/// Puts one tag into its place in the sorted set; a tag already present is
/// left alone.
fn insert_tag(v: &mut Vec<String>, tag: String)
    requires
        sorted_unique(old(v).deep_view()),
    ensures
        sorted_unique(final(v).deep_view()),
        forall|t: Seq<char>|
            #[trigger] final(v).deep_view().contains(t) <==> old(v).deep_view().contains(t) || t
                == tag@,
{
    let ghost dv0 = old(v).deep_view();
    let n = v.len();
    let mut i: usize = 0;
    while i < n && !str_le(tag.as_str(), v[i].as_str())
        invariant
            sorted_unique(dv0),
            v.deep_view() == dv0,
            n == v@.len(),
            0 <= i <= n,
            forall|j: int| 0 <= j < i ==> seq_lt(#[trigger] dv0[j], tag@),
        decreases n - i,
    {
        proof {
            lemma_seq_le_total(tag@, dv0[i as int]);
            assert(seq_le(dv0[i as int], tag@));
            assert(seq_lt(dv0[i as int], tag@));
        }
        i = i + 1;
    }
    if i < n {
        let back = str_le(v[i].as_str(), tag.as_str());
        if back {
            proof {
                lemma_seq_le_antisymm(dv0[i as int], tag@);
                assert(v.deep_view()[i as int] == tag@);
                assert(v.deep_view().contains(tag@));
            }
            return ;
        }
    }
    proof {
        assert forall|j: int| i <= j < dv0.len() implies seq_lt(tag@, #[trigger] dv0[j]) by {
            assert(seq_le(tag@, dv0[i as int]));
            assert(tag@ != dv0[i as int]);
            assert(seq_lt(tag@, dv0[i as int]));
            if j > i {
                lemma_seq_lt_trans(tag@, dv0[i as int], dv0[j]);
            }
        }
    }
    v.insert(i, tag);
    proof {
        let dv1 = v.deep_view();
        assert(dv1 =~= dv0.insert(i as int, tag@));
        assert forall|p: int, q: int| 0 <= p < q < dv1.len() implies seq_lt(dv1[p], dv1[q]) by {
            if q < i {
                assert(dv1[p] == dv0[p] && dv1[q] == dv0[q]);
            } else if p > i {
                assert(dv1[p] == dv0[p - 1] && dv1[q] == dv0[q - 1]);
            } else if p < i && q == i {
                assert(dv1[p] == dv0[p] && dv1[q] == tag@);
            } else if p < i && q > i {
                assert(dv1[p] == dv0[p] && dv1[q] == dv0[q - 1]);
                assert(seq_lt(dv0[p], tag@));
                assert(seq_lt(tag@, dv0[q - 1]));
                lemma_seq_lt_trans(dv0[p], tag@, dv0[q - 1]);
            } else {
                assert(p == i && q > i);
                assert(dv1[p] == tag@ && dv1[q] == dv0[q - 1]);
            }
        }
        assert forall|t: Seq<char>| #[trigger] dv1.contains(t) implies dv0.contains(t) || t == tag@
            by {
            let k = choose|k: int| 0 <= k < dv1.len() && dv1[k] == t;
            if k < i {
                assert(dv0[k] == t);
            } else if k > i {
                assert(dv0[k - 1] == t);
            }
        }
        assert forall|t: Seq<char>| dv0.contains(t) || t == tag@ implies #[trigger] dv1.contains(
            t,
        ) by {
            if t == tag@ {
                assert(dv1[i as int] == t);
            } else if dv0.contains(t) {
                let k = choose|k: int| 0 <= k < dv0.len() && dv0[k] == t;
                if k < i {
                    assert(dv1[k] == t);
                } else {
                    assert(dv1[k + 1] == t);
                }
            }
        }
    }
}

proof fn lemma_added_tag_step(adds: Seq<Seq<char>>, i: int, t: Seq<char>)
    requires
        0 <= i < adds.len(),
    ensures
        spec_added_tag(adds.take(i + 1), t) <==> (spec_added_tag(adds.take(i), t) || (t.len() > 0
            && spec_trim(adds[i]) == t)),
{
    let a1 = adds.take(i + 1);
    let a0 = adds.take(i);
    if spec_added_tag(a1, t) {
        let k = choose|k: int| 0 <= k < a1.len() && #[trigger] spec_trim(a1[k]) == t;
        if k < i {
            assert(a0[k] == adds[k] && a1[k] == adds[k]);
            assert(spec_trim(a0[k]) == t);
        } else {
            assert(a1[k] == adds[i]);
        }
    }
    if spec_added_tag(a0, t) {
        let k = choose|k: int| 0 <= k < a0.len() && #[trigger] spec_trim(a0[k]) == t;
        assert(a1[k] == adds[k] && a0[k] == adds[k]);
        assert(spec_trim(a1[k]) == t);
    }
    if t.len() > 0 && spec_trim(adds[i]) == t {
        assert(a1[i] == adds[i]);
        assert(spec_trim(a1[i]) == t);
    }
}

/// Unions the additions into an existing sorted tag set: each addition is
/// trimmed, empties are dropped, duplicates collapse, and the result is
/// again sorted. Nothing is ever removed.
pub fn merge_tags(existing: &Vec<String>, additions: &Vec<String>) -> (r: Vec<String>)
    requires
        sorted_unique(existing.deep_view()),
    ensures
        sorted_unique(r.deep_view()),
        tag_union_holds(existing.deep_view(), additions.deep_view(), r.deep_view()),
{
    let mut r = clone_tags(existing);
    let n = additions.len();
    let mut i: usize = 0;
    proof {
        assert(additions.deep_view().take(0) =~= Seq::<Seq<char>>::empty());
    }
    while i < n
        invariant
            n == additions@.len(),
            0 <= i <= n,
            sorted_unique(r.deep_view()),
            forall|t: Seq<char>|
                #[trigger] r.deep_view().contains(t) <==> existing.deep_view().contains(t)
                    || spec_added_tag(additions.deep_view().take(i as int), t),
        decreases n - i,
    {
        let ghost pre = r.deep_view();
        let tr = trim_str(additions[i].as_str());
        let ghost trv = tr@;
        proof {
            assert(additions.deep_view()[i as int] == additions@[i as int]@);
            assert(trv == spec_trim(additions.deep_view()[i as int]));
        }
        if !tr.as_str().is_empty() {
            insert_tag(&mut r, tr);
        }
        proof {
            assert forall|t: Seq<char>|
                #[trigger] r.deep_view().contains(t) <==> (existing.deep_view().contains(t)
                    || spec_added_tag(additions.deep_view().take(i + 1), t)) by {
                lemma_added_tag_step(additions.deep_view(), i as int, t);
                if trv.len() == 0 {
                    assert(r.deep_view() == pre);
                }
            }
        }
        i = i + 1;
    }
    proof {
        assert(additions.deep_view().take(n as int) =~= additions.deep_view());
    }
    r
}

/// Law: the tag union is idempotent. Merging the same additions a second
/// time returns the very sequence the first merge produced.
pub proof fn lemma_merge_tags_idempotent(
    existing: Seq<Seq<char>>,
    additions: Seq<Seq<char>>,
    once: Seq<Seq<char>>,
    twice: Seq<Seq<char>>,
)
    requires
        sorted_unique(once),
        tag_union_holds(existing, additions, once),
        sorted_unique(twice),
        tag_union_holds(once, additions, twice),
    ensures
        once == twice,
{
    assert forall|t: Seq<char>| once.contains(t) <==> twice.contains(t) by {
        assert(once.contains(t) <==> existing.contains(t) || spec_added_tag(additions, t));
        assert(twice.contains(t) <==> once.contains(t) || spec_added_tag(additions, t));
    }
    lemma_sorted_unique_same_elements(once, twice);
}

/// Law: the tag union does not care in which order two batches of additions
/// arrive; either order of the two merges ends in the same sequence.
pub proof fn lemma_merge_tags_commutative(
    existing: Seq<Seq<char>>,
    first: Seq<Seq<char>>,
    second: Seq<Seq<char>>,
    after_first: Seq<Seq<char>>,
    first_then_second: Seq<Seq<char>>,
    after_second: Seq<Seq<char>>,
    second_then_first: Seq<Seq<char>>,
)
    requires
        sorted_unique(after_first),
        tag_union_holds(existing, first, after_first),
        sorted_unique(first_then_second),
        tag_union_holds(after_first, second, first_then_second),
        sorted_unique(after_second),
        tag_union_holds(existing, second, after_second),
        sorted_unique(second_then_first),
        tag_union_holds(after_second, first, second_then_first),
    ensures
        first_then_second == second_then_first,
{
    assert forall|t: Seq<char>|
        first_then_second.contains(t) <==> second_then_first.contains(t) by {
        assert(first_then_second.contains(t) <==> existing.contains(t) || spec_added_tag(
            first,
            t,
        ) || spec_added_tag(second, t));
        assert(second_then_first.contains(t) <==> existing.contains(t) || spec_added_tag(
            second,
            t,
        ) || spec_added_tag(first, t));
    }
    lemma_sorted_unique_same_elements(first_then_second, second_then_first);
}

/// Law: the tag union sees its additions as a set. Two addition batches
/// that contribute the same trimmed tags — whatever their order, their
/// duplicates or their surrounding blanks — merge an existing set to the
/// same sequence.
pub proof fn lemma_merge_tags_additions_as_set(
    existing: Seq<Seq<char>>,
    first: Seq<Seq<char>>,
    second: Seq<Seq<char>>,
    merged_first: Seq<Seq<char>>,
    merged_second: Seq<Seq<char>>,
)
    requires
        sorted_unique(merged_first),
        tag_union_holds(existing, first, merged_first),
        sorted_unique(merged_second),
        tag_union_holds(existing, second, merged_second),
        forall|t: Seq<char>| spec_added_tag(first, t) <==> spec_added_tag(second, t),
    ensures
        merged_first == merged_second,
{
    assert forall|t: Seq<char>| merged_first.contains(t) <==> merged_second.contains(t) by {
        assert(merged_first.contains(t) <==> existing.contains(t) || spec_added_tag(first, t));
        assert(merged_second.contains(t) <==> existing.contains(t) || spec_added_tag(second, t));
    }
    lemma_sorted_unique_same_elements(merged_first, merged_second);
}

/// Law: appended text never loses what was there. An empty addition is the
/// identity, and a non-empty addition keeps the whole existing text as a
/// prefix, separated from the new material by a blank line.
pub proof fn lemma_merge_text_grows(existing: Option<Seq<char>>, addition: Seq<char>)
    ensures
        addition.len() == 0 ==> spec_merge_text(existing, addition) == opt_text(existing),
        existing matches Some(prev) ==> spec_merge_text(existing, addition).take(prev.len() as int)
            =~= prev,
        existing matches Some(prev) ==> ((prev.len() > 0 && addition.len() > 0)
            ==> spec_merge_text(existing, addition) == prev + "\n\n"@ + addition),
{
    if addition.len() == 0 {
        match existing {
            None => {
                assert(addition =~= opt_text(existing));
            },
            Some(prev) => {},
        }
    }
}

} // verus!

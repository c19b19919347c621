use vstd::prelude::*;
use vstd::seq_lib::{to_multiset_build, to_multiset_contains, to_multiset_insert};
use crate::entry::{EntryModel, FeedItem, model};
use crate::text::chars_of;

verus! {

/// Lexicographic order of texts by character code, as `String`'s `Ord` compares them.
pub open spec fn text_le(a: Seq<char>, b: Seq<char>) -> bool
    decreases a.len(),
{
    if a.len() == 0 {
        true
    } else if b.len() == 0 {
        false
    } else if a[0] != b[0] {
        (a[0] as int) < (b[0] as int)
    } else {
        text_le(a.drop_first(), b.drop_first())
    }
}

/// Entries run from the latest date to the earliest.
pub open spec fn sorted_by_date_desc(s: Seq<EntryModel>) -> bool {
    forall|j: int, k: int| 0 <= j < k < s.len() ==> #[trigger] text_le(s[k].date, s[j].date)
}

/// No two entries share a title.
pub open spec fn titles_unique(s: Seq<EntryModel>) -> bool {
    forall|j: int, k: int| 0 <= j < k < s.len() ==> #[trigger] s[j].title != #[trigger] s[k].title
}

pub proof fn lemma_text_le_total(a: Seq<char>, b: Seq<char>)
    ensures
        text_le(a, b) || text_le(b, a),
    decreases a.len(),
{
    if a.len() > 0 && b.len() > 0 && a[0] == b[0] {
        lemma_text_le_total(a.drop_first(), b.drop_first());
    }
}

pub proof fn lemma_text_le_transitive(a: Seq<char>, b: Seq<char>, c: Seq<char>)
    requires
        text_le(a, b),
        text_le(b, c),
    ensures
        text_le(a, c),
    decreases a.len(),
{
    if a.len() > 0 && b.len() > 0 && c.len() > 0 && a[0] == b[0] && b[0] == c[0] {
        lemma_text_le_transitive(a.drop_first(), b.drop_first(), c.drop_first());
    }
}

/// Whether text `a` orders at or before text `b`.
pub fn chars_le(a: &Vec<char>, b: &Vec<char>) -> (r: bool)
    ensures
        r == text_le(a@, b@),
{
    let mut i: usize = 0;
    assert(a@.skip(0) =~= a@ && b@.skip(0) =~= b@);
    while i < a.len() && i < b.len()
        invariant
            i <= a@.len(),
            i <= b@.len(),
            text_le(a@, b@) == text_le(a@.skip(i as int), b@.skip(i as int)),
        decreases a@.len() - i,
    {
        let ghost sa = a@.skip(i as int);
        let ghost sb = b@.skip(i as int);
        assert(sa[0] == a@[i as int] && sb[0] == b@[i as int]);
        if a[i] != b[i] {
            return a[i] < b[i];
        }
        assert(sa.drop_first() =~= a@.skip(i + 1));
        assert(sb.drop_first() =~= b@.skip(i + 1));
        i += 1;
    }
    assert(a@.skip(i as int).len() == 0 || b@.skip(i as int).len() == 0);
    i == a.len()
}

proof fn lemma_unique_after_insert(out: Seq<EntryModel>, pre: Seq<EntryModel>, x: EntryModel, p: int)
    requires
        0 <= p <= out.len(),
        titles_unique(out),
        out.to_multiset() == pre.to_multiset(),
        forall|j: int| 0 <= j < pre.len() ==> pre[j].title != x.title,
    ensures
        titles_unique(out.insert(p, x)),
{
    assert forall|j: int| 0 <= j < out.len() implies out[j].title != x.title by {
        to_multiset_contains(out, out[j]);
        to_multiset_contains(pre, out[j]);
        assert(out.contains(out[j]));
    }
    let s = out.insert(p, x);
    assert forall|j: int, k: int| 0 <= j < k < s.len() implies #[trigger] s[j].title != #[trigger] s[k].title by {
        if j < p {
            if k == p {
                assert(s[j] == out[j]);
            } else if k < p {
                assert(s[j] == out[j] && s[k] == out[k]);
            } else {
                assert(s[j] == out[j] && s[k] == out[k - 1]);
            }
        } else if j == p {
            assert(s[k] == out[k - 1]);
        } else {
            assert(s[j] == out[j - 1] && s[k] == out[k - 1]);
        }
    }
}

/// Sorts entries by date, latest first.
pub fn sort_by_date_desc(v: &Vec<FeedItem>) -> (r: Vec<FeedItem>)
    ensures
        model(r@).to_multiset() == model(v@).to_multiset(),
        sorted_by_date_desc(model(r@)),
        titles_unique(model(v@)) ==> titles_unique(model(r@)),
{
    let mut out: Vec<FeedItem> = Vec::new();
    let mut keys: Vec<Vec<char>> = Vec::new();
    let mut i: usize = 0;
    assert(model(v@).subrange(0, 0) =~= model(out@));
    while i < v.len()
        invariant
            i <= v@.len(),
            keys@.len() == out@.len(),
            forall|j: int| 0 <= j < out@.len() ==> #[trigger] keys@[j]@ == out@[j].date@,
            model(out@).to_multiset() == model(v@).subrange(0, i as int).to_multiset(),
            sorted_by_date_desc(model(out@)),
            titles_unique(model(v@)) ==> titles_unique(model(out@)),
        decreases v@.len() - i,
    {
        let x = v[i].duplicate();
        let xk = chars_of(x.date.as_str());
        let mut p: usize = 0;
        while p < out.len() && !chars_le(&keys[p], &xk)
            invariant
                p <= out@.len(),
                xk@ == x.date@,
                keys@.len() == out@.len(),
                forall|j: int| 0 <= j < out@.len() ==> #[trigger] keys@[j]@ == out@[j].date@,
                forall|j: int| 0 <= j < p ==> !text_le(#[trigger] out@[j].date@, x.date@),
            decreases out@.len() - p,
        {
            p += 1;
        }
        let ghost old_out = model(out@);
        let ghost old_keys = keys@;
        let ghost pre = model(v@).subrange(0, i as int);
        proof {
            assert forall|j: int| 0 <= j < p implies text_le(x.date@, #[trigger] old_out[j].date) by {
                lemma_text_le_total(x.date@, old_out[j].date);
            }
            if p < out@.len() {
                assert(text_le(old_out[p as int].date, x.date@));
                assert forall|k: int| p <= k < old_out.len() implies text_le(#[trigger] old_out[k].date, x.date@) by {
                    if k > p {
                        lemma_text_le_transitive(old_out[k].date, old_out[p as int].date, x.date@);
                    }
                }
            }
            if titles_unique(model(v@)) {
                assert forall|j: int| 0 <= j < pre.len() implies pre[j].title != x@.title by {
                    assert(pre[j] == model(v@)[j]);
                    assert(model(v@)[i as int] == x@);
                }
                lemma_unique_after_insert(old_out, pre, x@, p as int);
            }
        }
        out.insert(p, x);
        keys.insert(p, xk);
        proof {
            assert(model(out@) =~= old_out.insert(p as int, v@[i as int]@));
            to_multiset_insert(old_out, p as int, v@[i as int]@);
            assert(model(v@).subrange(0, i + 1) =~= pre.push(v@[i as int]@));
            to_multiset_build(pre, v@[i as int]@);
            let s = model(out@);
            assert forall|j: int, k: int| 0 <= j < k < s.len() implies #[trigger] text_le(s[k].date, s[j].date) by {
                if j < p {
                    if k == p {
                    } else if k < p {
                        assert(s[j] == old_out[j] && s[k] == old_out[k]);
                    } else {
                        assert(s[j] == old_out[j] && s[k] == old_out[k - 1]);
                    }
                } else if j == p {
                    assert(s[k] == old_out[k - 1]);
                } else {
                    assert(s[j] == old_out[j - 1] && s[k] == old_out[k - 1]);
                }
            }
            assert forall|j: int| 0 <= j < out@.len() implies #[trigger] keys@[j]@ == out@[j].date@ by {
                if j < p {
                    assert(keys@[j] == old_keys[j]);
                } else if j > p {
                    assert(keys@[j] == old_keys[j - 1]);
                }
            }
        }
        i += 1;
    }
    assert(model(v@).subrange(0, v@.len() as int) =~= model(v@));
    out
}

} // verus!

use vstd::prelude::*;

verus! {

/// One feed entry: the record returned to callers and kept in a snapshot.
#[derive(Debug, Clone)]
pub struct FeedItem {
    pub title: String,
    pub link: String,
    pub date: String,
}

/// The mathematical value of a [`FeedItem`].
pub ghost struct EntryModel {
    pub title: Seq<char>,
    pub link: Seq<char>,
    pub date: Seq<char>,
}

impl View for FeedItem {
    type V = EntryModel;

    open spec fn view(&self) -> EntryModel {
        EntryModel { title: self.title@, link: self.link@, date: self.date@ }
    }
}

/// The entries of a list, as values.
pub open spec fn model(v: Seq<FeedItem>) -> Seq<EntryModel> {
    v.map_values(|e: FeedItem| e@)
}

impl FeedItem {
    pub fn new(title: String, link: String, date: String) -> (r: Self)
        ensures
            r@ == (EntryModel { title: title@, link: link@, date: date@ }),
    {
        Self { title, link, date }
    }

    /// A copy with the same fields.
    pub fn duplicate(&self) -> (r: Self)
        ensures
            r@ == self@,
    {
        Self { title: self.title.clone(), link: self.link.clone(), date: self.date.clone() }
    }
}

impl PartialEq for FeedItem {
    fn eq(&self, o: &FeedItem) -> (r: bool) {
        self.title == o.title && self.link == o.link && self.date == o.date
    }
}

impl vstd::std_specs::cmp::PartialEqSpecImpl for FeedItem {
    open spec fn obeys_eq_spec() -> bool {
        true
    }

    open spec fn eq_spec(&self, o: &FeedItem) -> bool {
        self@ == o@
    }
}

/// Field-wise equality of two entry lists.
pub fn same_entries(a: &Vec<FeedItem>, b: &Vec<FeedItem>) -> (r: bool)
    ensures
        r == (model(a@) == model(b@)),
{
    if a.len() != b.len() {
        assert(model(a@).len() != model(b@).len());
        return false;
    }
    let mut i: usize = 0;
    while i < a.len()
        invariant
            a@.len() == b@.len(),
            i <= a@.len(),
            forall|j: int| 0 <= j < i ==> a@[j]@ == b@[j]@,
        decreases a@.len() - i,
    {
        if !(a[i] == b[i]) {
            assert(model(a@)[i as int] != model(b@)[i as int]);
            return false;
        }
        i += 1;
    }
    assert(model(a@) =~= model(b@));
    true
}

} // verus!

use vstd::prelude::*;
use crate::entry::{EntryModel, FeedItem, model, same_entries};

verus! {

/// The newest `max` entries of a list sorted latest first: its first `max`.
pub open spec fn retained(s: Seq<EntryModel>, max: nat) -> Seq<EntryModel> {
    if s.len() <= max {
        s
    } else {
        s.subrange(0, max as int)
    }
}

/// A snapshot is written when none could be read or when it differs from what
/// would be written now: the newest `max` entries.
pub open spec fn write_needed(stored: Option<Seq<EntryModel>>, feeds: Seq<EntryModel>, max: nat) -> bool {
    match stored {
        Some(s) => s != retained(feeds, max),
        None => true,
    }
}

pub open spec fn stored_model(stored: Option<Vec<FeedItem>>) -> Option<Seq<EntryModel>> {
    match stored {
        Some(v) => Some(model(v@)),
        None => None,
    }
}

/// The first `max` entries of a list.
pub fn retain_newest(feeds: &Vec<FeedItem>, max: usize) -> (r: Vec<FeedItem>)
    ensures
        model(r@) == retained(model(feeds@), max as nat),
{
    let mut r: Vec<FeedItem> = Vec::new();
    let mut i: usize = 0;
    while i < feeds.len() && i < max
        invariant
            i <= feeds@.len(),
            i <= max,
            r@.len() == i,
            forall|j: int| 0 <= j < i ==> r@[j]@ == feeds@[j]@,
        decreases feeds@.len() - i,
    {
        r.push(feeds[i].duplicate());
        i += 1;
    }
    assert(model(r@) =~= retained(model(feeds@), max as nat));
    r
}

/// The snapshot to write for `feeds` given what was read back (`None` where
/// nothing could be read): `None` where no write is needed.
pub fn snapshot_to_write(stored: &Option<Vec<FeedItem>>, feeds: &Vec<FeedItem>, max: usize) -> (r: Option<Vec<FeedItem>>)
    ensures
        r is Some <==> write_needed(stored_model(*stored), model(feeds@), max as nat),
        r is Some ==> model(r->Some_0@) == retained(model(feeds@), max as nat),
        r is Some ==> r->Some_0@.len() <= max,
{
    let kept = retain_newest(feeds, max);
    assert(model(kept@).len() == kept@.len());
    let write = match stored {
        Some(s) => !same_entries(s, &kept),
        None => true,
    };
    if write {
        Some(kept)
    } else {
        None
    }
}

/// A written snapshot never holds more than the configured number of entries.
pub proof fn lemma_snapshot_bounded(feeds: Seq<EntryModel>, max: nat)
    ensures
        retained(feeds, max).len() <= max,
        retained(feeds, max) == feeds.subrange(0, retained(feeds, max).len() as int),
{
    assert(feeds.subrange(0, feeds.len() as int) =~= feeds);
}

/// Saving the same entries twice, with nothing fetched between, writes once:
/// once the snapshot is written, reading it back asks for no second write.
pub proof fn lemma_save_idempotent(feeds: Seq<EntryModel>, max: nat)
    ensures
        !write_needed(Some(retained(feeds, max)), feeds, max),
{
}

/// A stored snapshot longer than the limit is always rewritten, so after a
/// save the file never holds more than `max` entries, even when the limit was
/// lowered since the last write.
pub proof fn lemma_oversized_snapshot_rewritten(stored: Seq<EntryModel>, feeds: Seq<EntryModel>, max: nat)
    requires
        stored.len() > max,
    ensures
        write_needed(Some(stored), feeds, max),
{
}

} // verus!

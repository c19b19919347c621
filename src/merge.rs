use vstd::prelude::*;
use vstd::string::StringExecFns;
use crate::entry::{EntryModel, FeedItem, model};
use crate::order::titles_unique;
use crate::rules::{link_rule_hits, link_skipped, skipped_by_link, texts};

verus! {

/// One item of a feed document, as the parser hands it out: title, link,
/// publication date, and the Dublin Core dates (empty where the item has none).
#[derive(Debug, Clone)]
pub struct RawItem {
    pub title: Option<String>,
    pub link: Option<String>,
    pub pub_date: Option<String>,
    pub dc_dates: Vec<String>,
}

/// The value of a [`RawItem`]: title, link, publication date, Dublin Core dates.
pub type ItemModel = (Option<Seq<char>>, Option<Seq<char>>, Option<Seq<char>>, Seq<Seq<char>>);

pub open spec fn opt_text(o: Option<String>) -> Option<Seq<char>> {
    match o {
        Some(s) => Some(s@),
        None => None,
    }
}

impl View for RawItem {
    type V = ItemModel;

    open spec fn view(&self) -> ItemModel {
        (opt_text(self.title), opt_text(self.link), opt_text(self.pub_date), texts(self.dc_dates@))
    }
}

pub open spec fn raw_models(v: Seq<RawItem>) -> Seq<ItemModel> {
    v.map_values(|i: RawItem| i@)
}

/// The items that the rss parser reads from a document, or its error text.
pub uninterp spec fn channel_items(b: Seq<u8>) -> Result<
    Seq<(Option<Seq<char>>, Option<Seq<char>>, Option<Seq<char>>, Seq<Seq<char>>)>,
    Seq<char>,
>;

/// The RFC 3339 form of an RFC 2822 date, where chrono can read it.
pub uninterp spec fn rfc3339_of(s: Seq<char>) -> Option<Seq<char>>;

/// Relies on `rss::Channel::read_from` and the item accessors `title`, `link`,
/// `pub_date` and `dublin_core_ext().dates()`: the outcome depends on the bytes alone.
#[verifier::external_body]
fn read_channel(b: &[u8]) -> (r: Result<Vec<RawItem>, String>)
    ensures
        r is Ok ==> channel_items(b@) == Ok::<Seq<ItemModel>, Seq<char>>(raw_models(r->Ok_0@)),
        r is Err ==> channel_items(b@) == Err::<Seq<ItemModel>, Seq<char>>(r->Err_0@),
{
    rss::Channel::read_from(b).map(|c| c.items().iter().map(|i| RawItem {
        title: i.title().map(String::from),
        link: i.link().map(String::from),
        pub_date: i.pub_date().map(String::from),
        dc_dates: i.dublin_core_ext().map_or(Vec::new(), |d| d.dates().to_vec()),
    }).collect()).map_err(|e| e.to_string())
}

/// Relies on chrono's `DateTime::parse_from_rfc2822` and `DateTime::to_rfc3339`:
/// the outcome depends on the text alone.
#[verifier::external_body]
fn rfc2822_to_rfc3339(s: &str) -> (r: Option<String>)
    ensures
        opt_text(r) == rfc3339_of(s@),
{
    chrono::DateTime::parse_from_rfc2822(s).ok().map(|d| d.to_rfc3339())
}

/// The canonical date of an item: its publication date in RFC 3339 form, else
/// its first Dublin Core date as written, else `today`. `None` where the
/// publication date cannot be read.
pub open spec fn item_date(it: ItemModel, today: Seq<char>) -> Option<Seq<char>> {
    if it.2 is Some {
        rfc3339_of(it.2->Some_0)
    } else if it.3.len() > 0 {
        Some(it.3[0])
    } else {
        Some(today)
    }
}

/// The entry an item gives: it needs a title, a link and a readable date.
pub open spec fn candidate(it: ItemModel, today: Seq<char>) -> Option<EntryModel> {
    if it.0 is Some && it.1 is Some && item_date(it, today) is Some {
        Some(EntryModel { title: it.0->Some_0, link: it.1->Some_0, date: item_date(it, today)->Some_0 })
    } else {
        None
    }
}

pub open spec fn has_title(acc: Seq<EntryModel>, t: Seq<char>) -> bool {
    exists|j: int| 0 <= j < acc.len() && #[trigger] acc[j].title == t
}

/// One item taken in: kept unless its title is known already or its link is skipped.
pub open spec fn take_in(acc: Seq<EntryModel>, it: ItemModel, rules: Seq<Seq<char>>, today: Seq<char>) -> Seq<EntryModel> {
    if candidate(it, today) is Some {
        let e = candidate(it, today)->Some_0;
        if has_title(acc, e.title) || skipped_by_link(e.link, rules) {
            acc
        } else {
            acc.push(e)
        }
    } else {
        acc
    }
}

/// The items taken in, in order, after the entries `acc`.
pub open spec fn ingest(acc: Seq<EntryModel>, items: Seq<ItemModel>, rules: Seq<Seq<char>>, today: Seq<char>) -> Seq<EntryModel>
    decreases items.len(),
{
    if items.len() == 0 {
        acc
    } else {
        take_in(ingest(acc, items.drop_last(), rules, today), items.last(), rules, today)
    }
}

/// The note left for an item whose publication date cannot be read.
pub open spec fn item_note(it: ItemModel) -> Seq<char> {
    if it.0 is Some && it.1 is Some && it.2 is Some && rfc3339_of(it.2->Some_0) is None {
        "unreadable date in: "@ + it.0->Some_0 + "\n"@
    } else {
        Seq::empty()
    }
}

pub open spec fn item_notes(items: Seq<ItemModel>) -> Seq<char>
    decreases items.len(),
{
    if items.len() == 0 {
        Seq::empty()
    } else {
        item_notes(items.drop_last()) + item_note(items.last())
    }
}

/// The entries after taking in every document that parses, in order.
pub open spec fn merge_payloads(acc: Seq<EntryModel>, docs: Seq<Seq<u8>>, rules: Seq<Seq<char>>, today: Seq<char>) -> Seq<EntryModel>
    decreases docs.len(),
{
    if docs.len() == 0 {
        acc
    } else {
        let prev = merge_payloads(acc, docs.drop_last(), rules, today);
        match channel_items(docs.last()) {
            Ok(items) => ingest(prev, items, rules, today),
            Err(_) => prev,
        }
    }
}

/// The diagnostics of the documents: the parser's error text, or the item notes.
pub open spec fn payload_notes(docs: Seq<Seq<u8>>) -> Seq<char>
    decreases docs.len(),
{
    if docs.len() == 0 {
        Seq::empty()
    } else {
        payload_notes(docs.drop_last()) + match channel_items(docs.last()) {
            Ok(items) => item_notes(items),
            Err(e) => e,
        }
    }
}

pub open spec fn byte_views(v: Seq<Vec<u8>>) -> Seq<Seq<u8>> {
    v.map_values(|b: Vec<u8>| b@)
}

/// Whether an entry of the list has the title.
pub fn has_title_in(feeds: &Vec<FeedItem>, title: &String) -> (r: bool)
    ensures
        r == has_title(model(feeds@), title@),
{
    let mut j: usize = 0;
    while j < feeds.len()
        invariant
            j <= feeds@.len(),
            forall|k: int| 0 <= k < j ==> feeds@[k].title@ != title@,
        decreases feeds@.len() - j,
    {
        if feeds[j].title == *title {
            assert(model(feeds@)[j as int].title == title@);
            return true;
        }
        j += 1;
    }
    assert forall|k: int| 0 <= k < model(feeds@).len() implies #[trigger] model(feeds@)[k].title != title@ by {
        assert(model(feeds@)[k] == feeds@[k]@);
    }
    false
}

/// The canonical date of one item (see [`item_date`]).
pub fn normalize_date(it: &RawItem, today: &str) -> (r: Option<String>)
    ensures
        opt_text(r) == item_date(it@, today@),
{
    match &it.pub_date {
        Some(p) => rfc2822_to_rfc3339(p.as_str()),
        None => {
            if it.dc_dates.len() > 0 {
                assert(texts(it.dc_dates@)[0] == it.dc_dates@[0]@);
                Some(it.dc_dates[0].clone())
            } else {
                Some(today.to_owned())
            }
        }
    }
}

/// Takes in the items of one document after the entries already held.
pub fn ingest_items(
    feeds: &mut Vec<FeedItem>,
    message: &mut String,
    items: &Vec<RawItem>,
    skip_link: &Vec<String>,
    today: &str,
)
    ensures
        model(final(feeds)@) == ingest(model(old(feeds)@), raw_models(items@), texts(skip_link@), today@),
        final(message)@ == old(message)@ + item_notes(raw_models(items@)),
{
    let ghost rules = texts(skip_link@);
    let ghost all = raw_models(items@);
    let mut i: usize = 0;
    assert(all.subrange(0, 0) =~= Seq::<ItemModel>::empty());
    assert(old(message)@ + Seq::<char>::empty() =~= old(message)@);
    while i < items.len()
        invariant
            i <= items@.len(),
            all == raw_models(items@),
            rules == texts(skip_link@),
            model(feeds@) == ingest(model(old(feeds)@), all.subrange(0, i as int), rules, today@),
            message@ == old(message)@ + item_notes(all.subrange(0, i as int)),
        decreases items@.len() - i,
    {
        let it = &items[i];
        let ghost m = it@;
        let ghost acc = model(feeds@);
        let ghost msg = message@;
        assert(all[i as int] == m);
        assert(all.subrange(0, i + 1).drop_last() =~= all.subrange(0, i as int));
        assert(all.subrange(0, i + 1).last() == m);
        match (&it.title, &it.link) {
            (Some(t), Some(l)) => {
                let date = normalize_date(it, today);
                match date {
                    Some(d) => {
                        let known = has_title_in(feeds, t);
                        if !known && !link_skipped(l.as_str(), skip_link) {
                            feeds.push(FeedItem::new(t.clone(), l.clone(), d));
                            assert(model(feeds@) =~= acc.push(candidate(m, today@)->Some_0));
                        }
                        assert(item_note(m) =~= Seq::<char>::empty());
                        assert(message@ =~= msg + item_note(m));
                    },
                    None => {
                        message.append("unreadable date in: ");
                        message.append(t.as_str());
                        message.append("\n");
                        assert(message@ =~= msg + item_note(m));
                    },
                }
            },
            _ => {
                assert(item_note(m) =~= Seq::<char>::empty());
                assert(message@ =~= msg + item_note(m));
            },
        }
        assert(message@ =~= old(message)@ + item_notes(all.subrange(0, i + 1)));
        i += 1;
    }
    assert(all.subrange(0, items@.len() as int) =~= all);
}

/// Parses each document and takes in its items; a document that does not parse
/// adds the parser's error text to `message`.
pub fn ingest_payloads(
    feeds: &mut Vec<FeedItem>,
    message: &mut String,
    contents: &Vec<Vec<u8>>,
    skip_link: &Vec<String>,
    today: &str,
)
    ensures
        model(final(feeds)@) == merge_payloads(model(old(feeds)@), byte_views(contents@), texts(skip_link@), today@),
        final(message)@ == old(message)@ + payload_notes(byte_views(contents@)),
{
    let ghost docs = byte_views(contents@);
    let mut i: usize = 0;
    assert(docs.subrange(0, 0) =~= Seq::<Seq<u8>>::empty());
    assert(old(message)@ + Seq::<char>::empty() =~= old(message)@);
    while i < contents.len()
        invariant
            i <= contents@.len(),
            docs == byte_views(contents@),
            model(feeds@) == merge_payloads(model(old(feeds)@), docs.subrange(0, i as int), texts(skip_link@), today@),
            message@ == old(message)@ + payload_notes(docs.subrange(0, i as int)),
        decreases contents@.len() - i,
    {
        let ghost msg = message@;
        assert(docs.subrange(0, i + 1).drop_last() =~= docs.subrange(0, i as int));
        assert(docs.subrange(0, i + 1).last() == contents@[i as int]@);
        match read_channel(contents[i].as_slice()) {
            Ok(items) => {
                ingest_items(feeds, message, &items, skip_link, today);
            },
            Err(e) => {
                message.append(e.as_str());
            },
        }
        assert(message@ =~= old(message)@ + payload_notes(docs.subrange(0, i + 1)));
        i += 1;
    }
    assert(docs.subrange(0, contents@.len() as int) =~= docs);
}

/// Taking in items keeps the entries held before, in place and unchanged (the
/// first entry seen with a title wins), adds only entries that no link rule
/// skips, and never lets two entries share a title.
pub proof fn lemma_ingest_extends(acc: Seq<EntryModel>, items: Seq<ItemModel>, rules: Seq<Seq<char>>, today: Seq<char>)
    ensures
        ingest(acc, items, rules, today).len() >= acc.len(),
        ingest(acc, items, rules, today).subrange(0, acc.len() as int) == acc,
        forall|j: int| acc.len() <= j < ingest(acc, items, rules, today).len()
            ==> !skipped_by_link(#[trigger] ingest(acc, items, rules, today)[j].link, rules),
        titles_unique(acc) ==> titles_unique(ingest(acc, items, rules, today)),
    decreases items.len(),
{
    if items.len() > 0 {
        let prev = ingest(acc, items.drop_last(), rules, today);
        lemma_ingest_extends(acc, items.drop_last(), rules, today);
        let r = ingest(acc, items, rules, today);
        assert(r == take_in(prev, items.last(), rules, today));
        if r != prev {
            let e = candidate(items.last(), today)->Some_0;
            assert(r == prev.push(e));
            assert(r.subrange(0, acc.len() as int) =~= prev.subrange(0, acc.len() as int));
            assert forall|j: int| acc.len() <= j < r.len() implies !skipped_by_link(#[trigger] r[j].link, rules) by {
                if j < prev.len() {
                    assert(r[j] == prev[j]);
                }
            }
            if titles_unique(acc) {
                assert forall|j: int, k: int| 0 <= j < k < r.len() implies #[trigger] r[j].title != #[trigger] r[k].title by {
                    if k == prev.len() {
                        assert(r[j] == prev[j]);
                        if prev[j].title == e.title {
                            assert(has_title(prev, e.title));
                        }
                    } else {
                        assert(r[j] == prev[j] && r[k] == prev[k]);
                    }
                }
            }
        }
    }
}

/// Merging documents keeps the entries held before, in place and unchanged,
/// adds only entries that no link rule skips, and never lets two entries share a title.
pub proof fn lemma_merge_extends(acc: Seq<EntryModel>, docs: Seq<Seq<u8>>, rules: Seq<Seq<char>>, today: Seq<char>)
    ensures
        merge_payloads(acc, docs, rules, today).len() >= acc.len(),
        merge_payloads(acc, docs, rules, today).subrange(0, acc.len() as int) == acc,
        forall|j: int| acc.len() <= j < merge_payloads(acc, docs, rules, today).len()
            ==> !skipped_by_link(#[trigger] merge_payloads(acc, docs, rules, today)[j].link, rules),
        titles_unique(acc) ==> titles_unique(merge_payloads(acc, docs, rules, today)),
    decreases docs.len(),
{
    if docs.len() > 0 {
        let prev = merge_payloads(acc, docs.drop_last(), rules, today);
        lemma_merge_extends(acc, docs.drop_last(), rules, today);
        let r = merge_payloads(acc, docs, rules, today);
        match channel_items(docs.last()) {
            Ok(items) => {
                lemma_ingest_extends(prev, items, rules, today);
                assert(r.subrange(0, acc.len() as int) =~= r.subrange(0, prev.len() as int).subrange(0, acc.len() as int));
                assert forall|j: int| acc.len() <= j < r.len() implies !skipped_by_link(#[trigger] r[j].link, rules) by {
                    if j < prev.len() {
                        assert(r[j] == r.subrange(0, prev.len() as int)[j]);
                    }
                }
            },
            Err(_) => {},
        }
    }
}

/// An entry whose link holds a non-blank link rule is left out, even where it
/// is the only item taken in.
pub proof fn lemma_skipped_link_left_out(acc: Seq<EntryModel>, it: ItemModel, rules: Seq<Seq<char>>, today: Seq<char>, k: int)
    requires
        candidate(it, today) is Some,
        0 <= k < rules.len(),
        link_rule_hits(candidate(it, today)->Some_0.link, rules[k]),
    ensures
        take_in(acc, it, rules, today) == acc,
{
}

/// An empty link rule excludes nothing: with only empty link rules, an item
/// with a title, a link and a readable date whose title is new is kept.
pub proof fn lemma_empty_rules_keep(acc: Seq<EntryModel>, it: ItemModel, rules: Seq<Seq<char>>, today: Seq<char>)
    requires
        forall|i: int| 0 <= i < rules.len() ==> #[trigger] rules[i].len() == 0,
        candidate(it, today) is Some,
        !has_title(acc, candidate(it, today)->Some_0.title),
    ensures
        take_in(acc, it, rules, today) == acc.push(candidate(it, today)->Some_0),
{
    assert forall|i: int| 0 <= i < rules.len() implies !#[trigger] link_rule_hits(candidate(it, today)->Some_0.link, rules[i]) by {
        assert(rules[i].len() == 0);
    }
}

} // verus!

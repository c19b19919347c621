use vstd::prelude::*;
use vstd::seq_lib::to_multiset_contains;
use vstd::string::StringExecFns;
use crate::entry::{EntryModel, FeedItem, model};
use crate::merge::{byte_views, ingest_payloads, lemma_merge_extends, merge_payloads, payload_notes};
use crate::order::{sort_by_date_desc, sorted_by_date_desc, titles_unique};
use crate::rules::{
    SettingItem, filter_by_words, lemma_filter_keeps_unique, link_skipped, search_filtered, skipped_by_link,
    skipped_by_title, texts, title_skipped,
};
use crate::store::{retain_newest, retained, snapshot_to_write, stored_model, write_needed};
use crate::text::{split_words, trim_of, trim_text, words_of};

verus! {

/// The most entries a call hands back.
pub const MAX_RETURNED: usize = 1000;

/// Why a reader cannot be made.
#[derive(Debug, Clone, Copy, PartialEq, Eq)]
pub enum ConfigError {
    /// The configuration names no category.
    NoGenres,
}

/// One session: the selected category, the search word, the entries gathered
/// so far and the status message.
#[derive(Debug, Clone)]
pub struct RssReader {
    pub feed_genres: Vec<String>,
    pub selected_genre: String,
    pub search_word: String,
    pub feeds: Vec<FeedItem>,
    pub setting_item: SettingItem,
    pub status_message: String,
}

/// A category list as values: each name with its URLs.
pub open spec fn genre_views(v: Seq<(String, Vec<String>)>) -> Seq<(Seq<char>, Seq<Seq<char>>)> {
    v.map_values(|p: (String, Vec<String>)| (p.0@, texts(p.1@)))
}

/// The category list with each name trimmed.
pub open spec fn trimmed_genres(v: Seq<(Seq<char>, Seq<Seq<char>>)>) -> Seq<(Seq<char>, Seq<Seq<char>>)> {
    v.map_values(|p: (Seq<char>, Seq<Seq<char>>)| (trim_of(p.0), p.1))
}

/// The URLs of a category; where a name comes twice the later pair wins, as
/// when the pairs are inserted into a map in order.
pub open spec fn genre_urls(list: Seq<(Seq<char>, Seq<Seq<char>>)>, genre: Seq<char>) -> Option<Seq<Seq<char>>>
    decreases list.len(),
{
    if list.len() == 0 {
        None
    } else if list.last().0 == genre {
        Some(list.last().1)
    } else {
        genre_urls(list.drop_last(), genre)
    }
}

/// Fetching happens on an explicit refresh from stock or when no search word is given.
pub open spec fn fetch_wanted(word: Seq<char>, from_stock: bool) -> bool {
    from_stock || word.len() == 0
}

/// Digits of a number in base ten.
pub open spec fn decimal(n: nat) -> Seq<char>
    decreases n,
{
    let d = seq!['0', '1', '2', '3', '4', '5', '6', '7', '8', '9'][(n % 10) as int];
    if n < 10 {
        seq![d]
    } else {
        decimal(n / 10).push(d)
    }
}

/// The message of a search over the stock.
pub open spec fn stock_message(n: nat) -> Seq<char> {
    "Stock feed is "@ + decimal(n)
}

pub open spec fn base_entries(stored: Option<Vec<FeedItem>>) -> Seq<EntryModel> {
    match stored {
        Some(v) => model(v@),
        None => Seq::empty(),
    }
}

/// Relies on `usize`'s `ToString`: the number in base ten.
#[verifier::external_body]
fn decimal_text(n: usize) -> (r: String)
    ensures
        r@ == decimal(n as nat),
{
    n.to_string()
}

/// Relies on chrono's `Local::now` and `format("%Y-%m-%d")`: today's local date.
#[verifier::external_body]
fn today_local() -> (r: String) {
    chrono::Local::now().format("%Y-%m-%d").to_string()
}

/// Copies a list of texts.
fn copy_texts(v: &Vec<String>) -> (r: Vec<String>)
    ensures
        texts(r@) == texts(v@),
{
    let mut r: Vec<String> = Vec::new();
    let mut i: usize = 0;
    while i < v.len()
        invariant
            i <= v@.len(),
            r@.len() == i,
            forall|j: int| 0 <= j < i ==> r@[j]@ == v@[j]@,
        decreases v@.len() - i,
    {
        r.push(v[i].clone());
        i += 1;
    }
    assert(texts(r@) =~= texts(v@));
    r
}

/// Whether the call fetches from the network (see [`fetch_wanted`]).
pub fn fetch_needed(search_word: &str, from_stock: bool) -> (r: bool)
    ensures
        r == fetch_wanted(search_word@, from_stock),
{
    from_stock || search_word.is_empty()
}

/// Splits URLs into `workers` contiguous batches, one per worker, in order.
/// Every batch but the last holds at most `urls.len() / workers`, rounded up.
pub fn url_batches(urls: &Vec<String>, workers: usize) -> (r: Vec<Vec<String>>)
    requires
        workers > 0,
    ensures
        r@.len() == workers,
        r@.map_values(|b: Vec<String>| texts(b@)).flatten() == texts(urls@),
        forall|i: int| 0 <= i < workers - 1 ==> #[trigger] r@[i]@.len() <= urls@.len() / (workers as nat) + 1,
{
    let n = urls.len();
    let q = n / workers;
    assert(n % workers != 0 ==> q < n) by (nonlinear_arith)
        requires
            workers > 0,
            q == n / workers,
    {
        if n % workers != 0 {
            assert(workers != 1);
            assert(q * workers <= n);
        }
    }
    let per = if n % workers != 0 { q + 1 } else { q };
    let ghost all = texts(urls@);
    let mut r: Vec<Vec<String>> = Vec::new();
    let mut start: usize = 0;
    let mut i: usize = 0;
    assert(r@.map_values(|b: Vec<String>| texts(b@)) =~= Seq::<Seq<Seq<char>>>::empty());
    assert(all.subrange(0, 0) =~= Seq::<Seq<char>>::empty());
    while i < workers
        invariant
            n == urls@.len(),
            all == texts(urls@),
            per <= n / workers + 1,
            i <= workers,
            r@.len() == i,
            start <= n,
            r@.map_values(|b: Vec<String>| texts(b@)).flatten() == all.subrange(0, start as int),
            i == workers ==> start == n,
            forall|k: int| 0 <= k < i && k < workers - 1 ==> #[trigger] r@[k]@.len() <= per,
        decreases workers - i,
    {
        let end = if i + 1 == workers {
            n
        } else if n - start < per {
            n
        } else {
            start + per
        };
        let mut batch: Vec<String> = Vec::new();
        let mut j: usize = start;
        while j < end
            invariant
                start <= j <= end <= n,
                n == urls@.len(),
                batch@.len() == j - start,
                forall|k: int| 0 <= k < j - start ==> #[trigger] batch@[k]@ == urls@[start + k]@,
            decreases end - j,
        {
            batch.push(urls[j].clone());
            j += 1;
        }
        let ghost before = r@.map_values(|b: Vec<String>| texts(b@));
        assert(texts(batch@) =~= all.subrange(start as int, end as int));
        r.push(batch);
        proof {
            assert(r@.map_values(|b: Vec<String>| texts(b@)) =~= before.push(all.subrange(start as int, end as int)));
            before.lemma_flatten_push(all.subrange(start as int, end as int));
            assert(all.subrange(0, start as int) + all.subrange(start as int, end as int) =~= all.subrange(0, end as int));
        }
        start = end;
        i += 1;
    }
    assert(all.subrange(0, n as int) =~= all);
    r
}

impl RssReader {
    /// A reader for the configured categories, with the first one selected.
    pub fn new(setting_item: SettingItem, url_list: &Vec<(String, Vec<String>)>) -> (r: Result<Self, ConfigError>)
        ensures
            r is Err <==> url_list@.len() == 0,
            r is Ok ==> ({
                let s = r->Ok_0;
                &&& texts(s.feed_genres@) == trimmed_genres(genre_views(url_list@)).map_values(|p: (Seq<char>, Seq<Seq<char>>)| p.0)
                &&& s.selected_genre@ == trim_of(url_list@[0].0@)
                &&& s.search_word@.len() == 0
                &&& s.feeds@.len() == 0
                &&& s.status_message@.len() == 0
                &&& s.setting_item == setting_item
            }),
    {
        let mut reader = Self {
            feed_genres: Vec::new(),
            selected_genre: String::new(),
            search_word: String::new(),
            feeds: Vec::new(),
            setting_item,
            status_message: String::new(),
        };
        let _ = reader.geturls(url_list);
        proof {
            let names = trimmed_genres(genre_views(url_list@)).map_values(|p: (Seq<char>, Seq<Seq<char>>)| p.0);
            assert(texts(reader.feed_genres@).len() == reader.feed_genres@.len());
            assert(names.len() == url_list@.len());
            if url_list@.len() > 0 {
                assert(names[0] == trim_of(url_list@[0].0@));
            }
        }
        if reader.feed_genres.len() == 0 {
            return Err(ConfigError::NoGenres);
        }
        reader.selected_genre = reader.feed_genres[0].clone();
        proof {
            assert(texts(reader.feed_genres@)[0] == reader.feed_genres@[0]@);
        }
        Ok(reader)
    }

    /// Takes in the category list: the names, trimmed, become the categories,
    /// and the list comes back with the names trimmed.
    pub fn geturls(&mut self, url_list: &Vec<(String, Vec<String>)>) -> (r: Vec<(String, Vec<String>)>)
        ensures
            genre_views(r@) == trimmed_genres(genre_views(url_list@)),
            texts(final(self).feed_genres@) == trimmed_genres(genre_views(url_list@)).map_values(
                |p: (Seq<char>, Seq<Seq<char>>)| p.0,
            ),
            final(self).selected_genre == old(self).selected_genre,
            final(self).search_word == old(self).search_word,
            final(self).feeds == old(self).feeds,
            final(self).setting_item == old(self).setting_item,
            final(self).status_message == old(self).status_message,
    {
        let ghost want = trimmed_genres(genre_views(url_list@));
        let mut names: Vec<String> = Vec::new();
        let mut r: Vec<(String, Vec<String>)> = Vec::new();
        let mut i: usize = 0;
        while i < url_list.len()
            invariant
                i <= url_list@.len(),
                want == trimmed_genres(genre_views(url_list@)),
                names@.len() == i,
                r@.len() == i,
                forall|j: int| 0 <= j < i ==> #[trigger] names@[j]@ == want[j].0,
                forall|j: int| 0 <= j < i ==> (#[trigger] r@[j]).0@ == want[j].0 && texts(r@[j].1@) == want[j].1,
            decreases url_list@.len() - i,
        {
            let name = trim_text(url_list[i].0.as_str());
            let urls = copy_texts(&url_list[i].1);
            names.push(name.clone());
            r.push((name, urls));
            i += 1;
        }
        assert(genre_views(r@) =~= want);
        assert(texts(names@) =~= want.map_values(|p: (Seq<char>, Seq<Seq<char>>)| p.0));
        self.feed_genres = names;
        r
    }

    /// The URLs of the selected category in a list that [`geturls`](Self::geturls) returned.
    pub fn selected_urls(&self, urls: &Vec<(String, Vec<String>)>) -> (r: Option<Vec<String>>)
        ensures
            r is None <==> genre_urls(genre_views(urls@), self.selected_genre@) is None,
            r is Some ==> genre_urls(genre_views(urls@), self.selected_genre@) == Some(texts(r->Some_0@)),
    {
        let ghost list = genre_views(urls@);
        let mut i: usize = urls.len();
        assert(list.subrange(0, i as int) =~= list);
        while i > 0
            invariant
                i <= urls@.len(),
                list == genre_views(urls@),
                genre_urls(list, self.selected_genre@) == genre_urls(list.subrange(0, i as int), self.selected_genre@),
            decreases i,
        {
            let ghost part = list.subrange(0, i as int);
            assert(part.last() == list[i - 1]);
            assert(part.drop_last() =~= list.subrange(0, i - 1));
            if urls[i - 1].0 == self.selected_genre {
                return Some(copy_texts(&urls[i - 1].1));
            }
            i -= 1;
        }
        None
    }

    /// Whether an entry is excluded by the link rules (`is_link`) or by the title rules.
    pub fn is_skip_feed(&self, feeditem: &FeedItem, is_link: bool) -> (r: bool)
        ensures
            is_link ==> r == skipped_by_link(feeditem.link@, texts(self.setting_item.skip_link@)),
            !is_link ==> r == skipped_by_title(feeditem.title@, texts(self.setting_item.skip_words@)),
    {
        if is_link {
            link_skipped(feeditem.link.as_str(), &self.setting_item.skip_link)
        } else {
            title_skipped(feeditem.title.as_str(), &self.setting_item.skip_words)
        }
    }

    /// Sets the search word, trimmed.
    pub fn set_search_word(&mut self, word: &str)
        ensures
            final(self).search_word@ == trim_of(word@),
            final(self).feed_genres == old(self).feed_genres,
            final(self).selected_genre == old(self).selected_genre,
            final(self).feeds == old(self).feeds,
            final(self).setting_item == old(self).setting_item,
            final(self).status_message == old(self).status_message,
    {
        self.search_word = trim_text(word);
    }

    /// The snapshot to write after a fetch, given what was read back from the
    /// category's file (`None` where nothing could be read); `None` where the
    /// file already holds the entries.
    pub fn savefeed(&self, stored: &Option<Vec<FeedItem>>) -> (r: Option<Vec<FeedItem>>)
        ensures
            r is Some <==> write_needed(stored_model(*stored), model(self.feeds@), self.setting_item.save_maxsize as nat),
            r is Some ==> model(r->Some_0@) == retained(model(self.feeds@), self.setting_item.save_maxsize as nat),
            r is Some ==> r->Some_0@.len() <= self.setting_item.save_maxsize,
    {
        snapshot_to_write(stored, &self.feeds, self.setting_item.save_maxsize)
    }

    /// Keeps the entries whose titles hold every word of the search word.
    pub fn filter_word(&mut self)
        ensures
            model(final(self).feeds@) == search_filtered(model(old(self).feeds@), words_of(old(self).search_word@)),
            final(self).feed_genres == old(self).feed_genres,
            final(self).selected_genre == old(self).selected_genre,
            final(self).search_word == old(self).search_word,
            final(self).setting_item == old(self).setting_item,
            final(self).status_message == old(self).status_message,
    {
        let words = split_words(self.search_word.as_str());
        assert(texts(words@) == words_of(self.search_word@));
        self.feeds = filter_by_words(&self.feeds, &words);
    }

    /// Parses fetched documents into the entries held (see [`ingest_payloads`]).
    pub fn rss_channel_read(&mut self, contents: &Vec<Vec<u8>>, today: &str)
        ensures
            model(final(self).feeds@) == merge_payloads(
                model(old(self).feeds@),
                byte_views(contents@),
                texts(old(self).setting_item.skip_link@),
                today@,
            ),
            final(self).status_message@ == old(self).status_message@ + payload_notes(byte_views(contents@)),
            final(self).feed_genres == old(self).feed_genres,
            final(self).selected_genre == old(self).selected_genre,
            final(self).search_word == old(self).search_word,
            final(self).setting_item == old(self).setting_item,
    {
        ingest_payloads(&mut self.feeds, &mut self.status_message, contents, &self.setting_item.skip_link, today);
    }

    /// A fetch pass on the documents fetched for the selected category, on top
    /// of the stored snapshot (`None` where none could be read), with `today`
    /// for items that carry no date: the merged entries, latest first.
    pub fn merge_fetched(&mut self, stored: Option<Vec<FeedItem>>, contents: &Vec<Vec<u8>>, today: &str)
        ensures
            model(final(self).feeds@).to_multiset() == merge_payloads(
                base_entries(stored),
                byte_views(contents@),
                texts(old(self).setting_item.skip_link@),
                today@,
            ).to_multiset(),
            sorted_by_date_desc(model(final(self).feeds@)),
            titles_unique(base_entries(stored)) ==> titles_unique(model(final(self).feeds@)),
            final(self).status_message@ == old(self).status_message@ + payload_notes(byte_views(contents@)),
            final(self).feed_genres == old(self).feed_genres,
            final(self).selected_genre == old(self).selected_genre,
            final(self).search_word == old(self).search_word,
            final(self).setting_item == old(self).setting_item,
    {
        match stored {
            Some(v) => {
                self.feeds = v;
            },
            None => {
                self.feeds = Vec::new();
                assert(model(self.feeds@) =~= Seq::<EntryModel>::empty());
            },
        }
        self.rss_channel_read(contents, today);
        proof {
            lemma_merge_extends(
                base_entries(stored),
                byte_views(contents@),
                texts(self.setting_item.skip_link@),
                today@,
            );
        }
        self.feeds = sort_by_date_desc(&self.feeds);
    }

    /// A fetch pass dated today (see [`merge_fetched`](Self::merge_fetched)):
    /// the entries are the merge of the stored snapshot and the documents for
    /// the date the clock gave, latest first; titles stay unique, and every
    /// stored entry is kept. Entries held before the call are dropped.
    pub fn getfeed(&mut self, stored: Option<Vec<FeedItem>>, contents: &Vec<Vec<u8>>)
        ensures
            exists|today: Seq<char>| model(final(self).feeds@).to_multiset() == #[trigger] merge_payloads(
                base_entries(stored),
                byte_views(contents@),
                texts(old(self).setting_item.skip_link@),
                today,
            ).to_multiset(),
            sorted_by_date_desc(model(final(self).feeds@)),
            titles_unique(base_entries(stored)) ==> titles_unique(model(final(self).feeds@)),
            forall|e: EntryModel| base_entries(stored).contains(e) ==> #[trigger] model(final(self).feeds@).contains(e),
            forall|e: EntryModel| #[trigger] model(final(self).feeds@).contains(e) ==> base_entries(stored).contains(e)
                || !skipped_by_link(e.link, texts(old(self).setting_item.skip_link@)),
            final(self).status_message@ == old(self).status_message@ + payload_notes(byte_views(contents@)),
            final(self).feed_genres == old(self).feed_genres,
            final(self).selected_genre == old(self).selected_genre,
            final(self).search_word == old(self).search_word,
            final(self).setting_item == old(self).setting_item,
    {
        let today = today_local();
        let ghost base = base_entries(stored);
        let ghost merged = merge_payloads(base, byte_views(contents@), texts(self.setting_item.skip_link@), today@);
        self.merge_fetched(stored, contents, today.as_str());
        proof {
            lemma_merge_extends(base, byte_views(contents@), texts(self.setting_item.skip_link@), today@);
            assert(model(self.feeds@).to_multiset() == merged.to_multiset());
            assert forall|e: EntryModel| base.contains(e) implies #[trigger] model(self.feeds@).contains(e) by {
                let j = choose|j: int| 0 <= j < base.len() && base[j] == e;
                assert(merged.subrange(0, base.len() as int)[j] == merged[j]);
                assert(merged.contains(e));
                to_multiset_contains(merged, e);
                to_multiset_contains(model(self.feeds@), e);
            }
            assert forall|e: EntryModel| #[trigger] model(self.feeds@).contains(e) implies base.contains(e)
                || !skipped_by_link(e.link, texts(self.setting_item.skip_link@)) by {
                to_multiset_contains(merged, e);
                to_multiset_contains(model(self.feeds@), e);
                let j = choose|j: int| 0 <= j < merged.len() && merged[j] == e;
                if j < base.len() {
                    assert(merged.subrange(0, base.len() as int)[j] == merged[j]);
                    assert(base[j] == e);
                }
            }
        }
    }

    /// A search over the stored snapshot, with no fetch: the entries whose
    /// titles hold every search word, latest first, and a message that counts
    /// them; where the snapshot could not be read, its error text.
    pub fn browse(&mut self, stored: Result<Vec<FeedItem>, String>)
        ensures
            stored is Ok ==> ({
                let kept = search_filtered(model(stored->Ok_0@), words_of(old(self).search_word@));
                &&& model(final(self).feeds@).to_multiset() == kept.to_multiset()
                &&& sorted_by_date_desc(model(final(self).feeds@))
                &&& (titles_unique(model(stored->Ok_0@)) ==> titles_unique(model(final(self).feeds@)))
                &&& final(self).status_message@ == stock_message(kept.len())
            }),
            stored is Err ==> final(self).feeds == old(self).feeds && final(self).status_message@ == stored->Err_0@,
            final(self).feed_genres == old(self).feed_genres,
            final(self).selected_genre == old(self).selected_genre,
            final(self).search_word == old(self).search_word,
            final(self).setting_item == old(self).setting_item,
    {
        match stored {
            Ok(v) => {
                self.feeds = v;
                proof {
                    if titles_unique(model(self.feeds@)) {
                        lemma_filter_keeps_unique(model(self.feeds@), words_of(self.search_word@));
                    }
                }
                self.filter_word();
                let mut msg = String::new();
                msg.append("Stock feed is ");
                let count = decimal_text(self.feeds.len());
                msg.append(count.as_str());
                assert(model(self.feeds@).len() == self.feeds@.len());
                assert(msg@ =~= stock_message(model(self.feeds@).len()));
                self.status_message = msg;
                self.feeds = sort_by_date_desc(&self.feeds);
            },
            Err(e) => {
                self.status_message = e;
            },
        }
    }

    /// Cuts the entries to the first [`MAX_RETURNED`].
    pub fn limit_results(&mut self)
        ensures
            model(final(self).feeds@) == retained(model(old(self).feeds@), MAX_RETURNED as nat),
            sorted_by_date_desc(model(old(self).feeds@)) ==> sorted_by_date_desc(model(final(self).feeds@)),
            titles_unique(model(old(self).feeds@)) ==> titles_unique(model(final(self).feeds@)),
            final(self).feed_genres == old(self).feed_genres,
            final(self).selected_genre == old(self).selected_genre,
            final(self).search_word == old(self).search_word,
            final(self).setting_item == old(self).setting_item,
            final(self).status_message == old(self).status_message,
    {
        let ghost before = model(self.feeds@);
        self.feeds = retain_newest(&self.feeds, MAX_RETURNED);
        proof {
            let after = model(self.feeds@);
            assert forall|j: int| 0 <= j < after.len() implies after[j] == before[j] by {
                if before.len() > MAX_RETURNED {
                    assert(after == before.subrange(0, MAX_RETURNED as int));
                }
            }
        }
    }
}

} // verus!

use vstd::prelude::*;
use crate::entry::{EntryModel, FeedItem, model};
use crate::order::titles_unique;
use crate::text::{contains, contains_text, lower_of, lowercase, trim_of, trim_text};

verus! {

/// Retention and skip settings, read from configuration.
#[derive(Debug, Clone)]
pub struct SettingItem {
    pub save_maxsize: usize,
    pub skip_words: Vec<String>,
    pub skip_link: Vec<String>,
    pub replace_words: Vec<Vec<String>>,
}

impl SettingItem {
    pub fn new(
        save_maxsize: usize,
        skip_words: Vec<String>,
        skip_link: Vec<String>,
        replace_words: Vec<Vec<String>>,
    ) -> (r: Self)
        ensures
            r.save_maxsize == save_maxsize,
            r.skip_words@ == skip_words@,
            r.skip_link@ == skip_link@,
            r.replace_words@ == replace_words@,
    {
        Self { save_maxsize, skip_words, skip_link, replace_words }
    }
}

/// The texts of a list of strings.
pub open spec fn texts(v: Seq<String>) -> Seq<Seq<char>> {
    v.map_values(|s: String| s@)
}

/// A link rule hits when it is not blank and its trimmed form occurs in the link.
pub open spec fn link_rule_hits(link: Seq<char>, rule: Seq<char>) -> bool {
    rule.len() > 0 && trim_of(rule).len() > 0 && contains(link, trim_of(rule))
}

pub open spec fn skipped_by_link(link: Seq<char>, rules: Seq<Seq<char>>) -> bool {
    exists|i: int| 0 <= i < rules.len() && #[trigger] link_rule_hits(link, rules[i])
}

/// A title rule hits when it is not empty and occurs, untrimmed, in the title.
pub open spec fn title_rule_hits(title: Seq<char>, rule: Seq<char>) -> bool {
    rule.len() > 0 && contains(title, rule)
}

pub open spec fn skipped_by_title(title: Seq<char>, rules: Seq<Seq<char>>) -> bool {
    exists|i: int| 0 <= i < rules.len() && #[trigger] title_rule_hits(title, rules[i])
}

/// Every search word occurs in the title, letter case aside.
pub open spec fn matches_search(title: Seq<char>, words: Seq<Seq<char>>) -> bool {
    forall|i: int| 0 <= i < words.len() ==> #[trigger] contains(lower_of(title), lower_of(words[i]))
}

/// The entries whose titles hold every search word.
pub open spec fn search_filtered(entries: Seq<EntryModel>, words: Seq<Seq<char>>) -> Seq<EntryModel> {
    entries.filter(|e: EntryModel| matches_search(e.title, words))
}

/// Whether a link is excluded by one of the link rules.
pub fn link_skipped(link: &str, rules: &Vec<String>) -> (r: bool)
    ensures
        r == skipped_by_link(link@, texts(rules@)),
        (forall|j: int| 0 <= j < rules@.len() ==> #[trigger] rules@[j]@.len() == 0) ==> !r,
{
    let mut i: usize = 0;
    while i < rules.len()
        invariant
            i <= rules@.len(),
            forall|j: int| 0 <= j < i ==> !link_rule_hits(link@, #[trigger] texts(rules@)[j]),
        decreases rules@.len() - i,
    {
        let rule = &rules[i];
        assert(texts(rules@)[i as int] == rule@);
        if !rule.as_str().is_empty() {
            let t = trim_text(rule.as_str());
            if !t.as_str().is_empty() && contains_text(link, t.as_str()) {
                assert(link_rule_hits(link@, texts(rules@)[i as int]));
                assert(rules@[i as int]@.len() != 0);
                return true;
            }
        }
        i += 1;
    }
    false
}

/// Whether a title is excluded by one of the title rules.
pub fn title_skipped(title: &str, rules: &Vec<String>) -> (r: bool)
    ensures
        r == skipped_by_title(title@, texts(rules@)),
{
    let mut i: usize = 0;
    while i < rules.len()
        invariant
            i <= rules@.len(),
            forall|j: int| 0 <= j < i ==> !title_rule_hits(title@, #[trigger] texts(rules@)[j]),
        decreases rules@.len() - i,
    {
        let rule = &rules[i];
        assert(texts(rules@)[i as int] == rule@);
        if !rule.as_str().is_empty() && contains_text(title, rule.as_str()) {
            assert(title_rule_hits(title@, texts(rules@)[i as int]));
            return true;
        }
        i += 1;
    }
    false
}

/// Whether a title holds every search word, letter case aside.
pub fn title_matches(title: &str, words: &Vec<String>) -> (r: bool)
    ensures
        r == matches_search(title@, texts(words@)),
{
    let lt = lowercase(title);
    let mut i: usize = 0;
    while i < words.len()
        invariant
            lt@ == lower_of(title@),
            i <= words@.len(),
            forall|j: int| 0 <= j < i ==> #[trigger] contains(lower_of(title@), lower_of(texts(words@)[j])),
        decreases words@.len() - i,
    {
        let lw = lowercase(words[i].as_str());
        assert(texts(words@)[i as int] == words@[i as int]@);
        if !contains_text(lt.as_str(), lw.as_str()) {
            return false;
        }
        i += 1;
    }
    true
}

/// The entries whose titles hold every search word, in their order.
pub fn filter_by_words(feeds: &Vec<FeedItem>, words: &Vec<String>) -> (r: Vec<FeedItem>)
    ensures
        model(r@) == search_filtered(model(feeds@), texts(words@)),
{
    let ghost pred = |e: EntryModel| matches_search(e.title, texts(words@));
    let mut r: Vec<FeedItem> = Vec::new();
    let mut i: usize = 0;
    while i < feeds.len()
        invariant
            i <= feeds@.len(),
            pred == (|e: EntryModel| matches_search(e.title, texts(words@))),
            model(r@) == model(feeds@).subrange(0, i as int).filter(pred),
        decreases feeds@.len() - i,
    {
        let ghost before = model(feeds@).subrange(0, i as int);
        assert(model(feeds@).subrange(0, i + 1) =~= before.push(feeds@[i as int]@));
        proof {
            before.lemma_filter_push(feeds@[i as int]@, pred);
        }
        if title_matches(feeds[i].title.as_str(), words) {
            r.push(feeds[i].duplicate());
            assert(model(r@) =~= model(feeds@).subrange(0, i + 1).filter(pred));
        }
        i += 1;
    }
    assert(model(feeds@).subrange(0, feeds@.len() as int) =~= model(feeds@));
    r
}

/// The search is conjunctive: every entry kept holds every word in its title,
/// letter case aside, and every entry that does is kept.
pub proof fn lemma_search_conjunctive(entries: Seq<EntryModel>, words: Seq<Seq<char>>)
    ensures
        forall|j: int, i: int| 0 <= j < search_filtered(entries, words).len() && 0 <= i < words.len()
            ==> contains(lower_of(#[trigger] search_filtered(entries, words)[j].title), lower_of(#[trigger] words[i])),
        forall|e: EntryModel| #[trigger] entries.contains(e) && matches_search(e.title, words)
            ==> search_filtered(entries, words).contains(e),
{
    let pred = |e: EntryModel| matches_search(e.title, words);
    assert forall|j: int, i: int| 0 <= j < search_filtered(entries, words).len() && 0 <= i < words.len()
        implies contains(lower_of(#[trigger] search_filtered(entries, words)[j].title), lower_of(#[trigger] words[i])) by {
        entries.lemma_filter_pred(pred, j);
    }
    assert forall|e: EntryModel| #[trigger] entries.contains(e) && matches_search(e.title, words)
        implies search_filtered(entries, words).contains(e) by {
        let i = choose|i: int| 0 <= i < entries.len() && entries[i] == e;
        assert(pred(entries[i]));
        entries.lemma_filter_contains(pred, i);
    }
}

/// An empty search keeps every entry, in order.
pub proof fn lemma_empty_search_keeps_all(entries: Seq<EntryModel>)
    ensures
        search_filtered(entries, Seq::empty()) == entries,
    decreases entries.len(),
{
    let pred = |e: EntryModel| matches_search(e.title, Seq::<Seq<char>>::empty());
    if entries.len() == 0 {
        entries.lemma_filter_len(pred);
        assert(entries.filter(pred) =~= entries);
    } else {
        let rest = entries.drop_last();
        lemma_empty_search_keeps_all(rest);
        rest.lemma_filter_push(entries.last(), pred);
        assert(rest.push(entries.last()) =~= entries);
    }
}

/// Filtering never makes two entries share a title.
pub proof fn lemma_filter_keeps_unique(entries: Seq<EntryModel>, words: Seq<Seq<char>>)
    requires
        titles_unique(entries),
    ensures
        titles_unique(search_filtered(entries, words)),
    decreases entries.len(),
{
    let pred = |e: EntryModel| matches_search(e.title, words);
    if entries.len() > 0 {
        let rest = entries.drop_last();
        let x = entries.last();
        assert(titles_unique(rest)) by {
            assert forall|j: int, k: int| 0 <= j < k < rest.len() implies #[trigger] rest[j].title != #[trigger] rest[k].title by {
                assert(rest[j] == entries[j] && rest[k] == entries[k]);
            }
        }
        lemma_filter_keeps_unique(rest, words);
        rest.lemma_filter_push(x, pred);
        assert(rest.push(x) =~= entries);
        if pred(x) {
            let f = rest.filter(pred);
            let g = f.push(x);
            assert forall|j: int, k: int| 0 <= j < k < g.len() implies #[trigger] g[j].title != #[trigger] g[k].title by {
                if k == f.len() {
                    assert(g[j] == f[j]);
                    assert(f.contains(f[j]));
                    rest.lemma_filter_contains_rev(pred, f[j]);
                    let m = choose|m: int| 0 <= m < rest.len() && rest[m] == f[j];
                    assert(entries[m] == rest[m]);
                    assert(entries[entries.len() - 1] == x);
                } else {
                    assert(g[j] == f[j] && g[k] == f[k]);
                }
            }
        }
    }
}

} // verus!

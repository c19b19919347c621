use rssreader::entry::{same_entries, FeedItem};
use rssreader::merge::{ingest_items, ingest_payloads, normalize_date, RawItem};
use rssreader::order::{chars_le, sort_by_date_desc};
use rssreader::reader::{fetch_needed, url_batches, ConfigError, RssReader, MAX_RETURNED};
use rssreader::rules::{filter_by_words, link_skipped, title_matches, title_skipped, SettingItem};
use rssreader::store::{retain_newest, snapshot_to_write};
use rssreader::text::contains_text;

fn item(title: &str, link: &str, date: &str) -> FeedItem {
    FeedItem::new(title.to_string(), link.to_string(), date.to_string())
}

fn settings(maxsize: usize, skip_link: &[&str]) -> SettingItem {
    SettingItem::new(
        maxsize,
        Vec::new(),
        skip_link.iter().map(|s| s.to_string()).collect(),
        Vec::new(),
    )
}

fn genres() -> Vec<(String, Vec<String>)> {
    vec![
        (" tech ".to_string(), vec!["http://a/rss".to_string(), "http://b/rss".to_string()]),
        ("news".to_string(), vec!["http://c/rss".to_string()]),
    ]
}

fn reader(maxsize: usize, skip_link: &[&str]) -> RssReader {
    RssReader::new(settings(maxsize, skip_link), &genres()).unwrap()
}

/// An RSS 2.0 document with one item per (title, link, pubDate) triple.
fn rss_doc(items: &[(&str, &str, &str)]) -> Vec<u8> {
    let mut s = String::from(
        "<?xml version=\"1.0\"?><rss version=\"2.0\"><channel><title>t</title><link>http://x</link><description>d</description>",
    );
    for (title, link, date) in items {
        s.push_str(&format!(
            "<item><title>{}</title><link>{}</link><pubDate>{}</pubDate></item>",
            title, link, date
        ));
    }
    s.push_str("</channel></rss>");
    s.into_bytes()
}

fn titles(v: &[FeedItem]) -> Vec<String> {
    v.iter().map(|e| e.title.clone()).collect()
}

#[test]
fn get_feedtest() {
    let mut rss = reader(100, &[]);
    let myurls = rss.geturls(&genres());
    let urls = rss.selected_urls(&myurls).unwrap();
    assert_eq!(urls.len(), 2);
    let doc = rss_doc(&[("one", "http://a/1", "Tue, 10 Jun 2003 04:00:00 GMT")]);
    rss.getfeed(None, &vec![doc]);
    println!("{:?}", rss);
    assert_eq!(titles(&rss.feeds), vec!["one".to_string()]);
}

#[test]
fn jsontest() {
    let anitem = FeedItem::new("testtitle".to_string(), "testlink".to_string(), "2023/7/8".to_string());
    let feeds = vec![anitem.clone()];
    let written = snapshot_to_write(&None, &feeds, 5).unwrap();
    println!("{:?}", written);
    assert_eq!(written, vec![anitem]);
}

#[test]
fn fetch_into_absent_snapshot_keeps_both_items() {
    let mut rss = reader(10, &[]);
    let first = rss_doc(&[("early", "http://a/1", "Mon, 01 Jan 2024 10:00:00 GMT")]);
    let second = rss_doc(&[("late", "http://b/1", "Tue, 02 Jan 2024 10:00:00 GMT")]);
    rss.getfeed(None, &vec![first, second]);
    assert_eq!(titles(&rss.feeds), vec!["late".to_string(), "early".to_string()]);
    assert_eq!(rss.feeds[0].date, "2024-01-02T10:00:00+00:00");
    let written = rss.savefeed(&None).unwrap();
    assert_eq!(written, rss.feeds);
    assert_eq!(written.len(), 2);
}

#[test]
fn fetch_keeps_first_seen_title() {
    let mut rss = reader(10, &[]);
    let stored = vec![
        item("A", "http://old/a", "2024-01-01T00:00:00+00:00"),
        item("B", "http://old/b", "2023-12-01T00:00:00+00:00"),
    ];
    let doc = rss_doc(&[
        ("A", "http://new/a", "Wed, 03 Jan 2024 10:00:00 GMT"),
        ("C", "http://new/c", "Thu, 04 Jan 2024 10:00:00 GMT"),
    ]);
    rss.getfeed(Some(stored), &vec![doc]);
    assert_eq!(rss.feeds.len(), 3);
    let a = rss.feeds.iter().find(|e| e.title == "A").unwrap();
    assert_eq!(a.link, "http://old/a");
    assert_eq!(a.date, "2024-01-01T00:00:00+00:00");
    let mut names = titles(&rss.feeds);
    names.sort();
    assert_eq!(names, vec!["A".to_string(), "B".to_string(), "C".to_string()]);
}

#[test]
fn browse_with_two_words_returns_matching_titles() {
    let mut rss = reader(10, &[]);
    rss.set_search_word("  release 2024 ");
    assert_eq!(rss.search_word, "release 2024");
    assert!(!fetch_needed(&rss.search_word, false));
    let stored = vec![
        item("Release notes 2023", "l1", "2023-05-01"),
        item("2024 Release candidate", "l2", "2024-02-01"),
        item("Roadmap 2024", "l3", "2024-03-01"),
        item("RELEASE day, 2024 edition", "l4", "2024-06-01"),
        item("Unrelated", "l5", "2024-07-01"),
    ];
    rss.browse(Ok(stored));
    assert_eq!(
        titles(&rss.feeds),
        vec!["RELEASE day, 2024 edition".to_string(), "2024 Release candidate".to_string()]
    );
    assert_eq!(rss.status_message, "Stock feed is 2");
}

#[test]
fn browse_reports_unreadable_snapshot() {
    let mut rss = reader(10, &[]);
    rss.browse(Err("no such file".to_string()));
    assert_eq!(rss.status_message, "no such file");
    assert!(rss.feeds.is_empty());
}

#[test]
fn empty_search_keeps_every_entry() {
    let mut rss = reader(10, &[]);
    rss.feeds = vec![item("x", "l", "1"), item("y", "l", "2")];
    rss.filter_word();
    assert_eq!(rss.feeds.len(), 2);
}

#[test]
fn search_is_conjunctive() {
    let feeds = vec![item("Foo only", "l", "1"), item("bar FOO", "l", "2"), item("Bar", "l", "3")];
    let words = vec!["foo".to_string(), "bar".to_string()];
    assert_eq!(titles(&filter_by_words(&feeds, &words)), vec!["bar FOO".to_string()]);
}

#[test]
fn skipped_link_is_left_out_even_alone() {
    let mut rss = reader(10, &[" ads.example "]);
    let doc = rss_doc(&[("promo", "http://ads.example/1", "Mon, 01 Jan 2024 10:00:00 GMT")]);
    rss.getfeed(None, &vec![doc]);
    assert!(rss.feeds.is_empty());
}

#[test]
fn empty_skip_rule_excludes_nothing() {
    let mut rss = reader(10, &["", "   "]);
    let doc = rss_doc(&[("kept", "http://site/1", "Mon, 01 Jan 2024 10:00:00 GMT")]);
    rss.getfeed(None, &vec![doc]);
    assert_eq!(titles(&rss.feeds), vec!["kept".to_string()]);
}

#[test]
fn unparsable_document_adds_diagnostic() {
    let mut feeds = Vec::new();
    let mut message = String::new();
    ingest_payloads(&mut feeds, &mut message, &vec![b"not a feed".to_vec()], &Vec::new(), "2024-01-01");
    assert!(feeds.is_empty());
    assert!(!message.is_empty());
}

#[test]
fn unreadable_date_skips_item_with_note() {
    let mut feeds = Vec::new();
    let mut message = String::new();
    let items = vec![RawItem {
        title: Some("t".to_string()),
        link: Some("l".to_string()),
        pub_date: Some("yesterday".to_string()),
        dc_dates: Vec::new(),
    }];
    ingest_items(&mut feeds, &mut message, &items, &Vec::new(), "2024-01-01");
    assert!(feeds.is_empty());
    assert_eq!(message, "unreadable date in: t\n");
}

#[test]
fn items_without_title_or_link_are_skipped() {
    let mut feeds = Vec::new();
    let mut message = String::new();
    let items = vec![
        RawItem { title: None, link: Some("l".to_string()), pub_date: None, dc_dates: Vec::new() },
        RawItem { title: Some("t".to_string()), link: None, pub_date: None, dc_dates: Vec::new() },
    ];
    ingest_items(&mut feeds, &mut message, &items, &Vec::new(), "2024-01-01");
    assert!(feeds.is_empty());
    assert!(message.is_empty());
}

#[test]
fn date_tiers() {
    let today = "2024-05-06";
    let with_pub = RawItem {
        title: None,
        link: None,
        pub_date: Some("Tue, 10 Jun 2003 04:00:00 GMT".to_string()),
        dc_dates: vec!["2001-01-01".to_string()],
    };
    assert_eq!(normalize_date(&with_pub, today), Some("2003-06-10T04:00:00+00:00".to_string()));
    let with_dc = RawItem { title: None, link: None, pub_date: None, dc_dates: vec!["2001-01-01".to_string()] };
    assert_eq!(normalize_date(&with_dc, today), Some("2001-01-01".to_string()));
    let bare = RawItem { title: None, link: None, pub_date: None, dc_dates: Vec::new() };
    assert_eq!(normalize_date(&bare, today), Some(today.to_string()));
}

#[test]
fn dedup_within_one_document() {
    let mut rss = reader(10, &[]);
    let doc = rss_doc(&[
        ("same", "http://a/1", "Mon, 01 Jan 2024 10:00:00 GMT"),
        ("same", "http://a/2", "Tue, 02 Jan 2024 10:00:00 GMT"),
    ]);
    rss.getfeed(None, &vec![doc]);
    assert_eq!(rss.feeds.len(), 1);
    assert_eq!(rss.feeds[0].link, "http://a/1");
}

#[test]
fn snapshot_capped_at_retention_limit() {
    let mut rss = reader(2, &[]);
    rss.feeds = vec![item("a", "l", "3"), item("b", "l", "2"), item("c", "l", "1")];
    let written = rss.savefeed(&None).unwrap();
    assert_eq!(titles(&written), vec!["a".to_string(), "b".to_string()]);
}

#[test]
fn second_save_writes_nothing() {
    let mut rss = reader(5, &[]);
    rss.feeds = vec![item("a", "l", "3"), item("b", "l", "2")];
    let first = rss.savefeed(&None).unwrap();
    assert!(rss.savefeed(&Some(first)).is_none());
}

#[test]
fn second_save_of_long_list_writes_nothing() {
    let mut rss = reader(2, &[]);
    rss.feeds = vec![item("a", "l", "3"), item("b", "l", "2"), item("c", "l", "1")];
    let first = rss.savefeed(&None).unwrap();
    assert_eq!(first.len(), 2);
    assert!(rss.savefeed(&Some(first)).is_none());
}

#[test]
fn oversized_snapshot_is_rewritten() {
    let mut rss = reader(1, &[]);
    rss.feeds = vec![item("a", "l", "3"), item("b", "l", "2")];
    let stored = rss.feeds.clone();
    let written = rss.savefeed(&Some(stored)).unwrap();
    assert_eq!(titles(&written), vec!["a".to_string()]);
}

#[test]
fn fetch_drops_entries_held_before() {
    let mut rss = reader(10, &[]);
    rss.feeds = vec![item("leftover", "http://other/1", "2030-01-01")];
    let doc = rss_doc(&[("fresh", "http://a/1", "Mon, 01 Jan 2024 10:00:00 GMT")]);
    rss.getfeed(None, &vec![doc]);
    assert_eq!(titles(&rss.feeds), vec!["fresh".to_string()]);
}

#[test]
fn changed_snapshot_is_written() {
    let mut rss = reader(5, &[]);
    rss.feeds = vec![item("a", "l", "3")];
    let stored = vec![item("a", "other", "3")];
    assert!(rss.savefeed(&Some(stored)).is_some());
}

#[test]
fn sort_puts_latest_first() {
    let v = vec![item("a", "l", "2023-01-01"), item("b", "l", "2024-01-01"), item("c", "l", "2023-06-01")];
    let r = sort_by_date_desc(&v);
    assert_eq!(titles(&r), vec!["b".to_string(), "c".to_string(), "a".to_string()]);
    assert!(sort_by_date_desc(&Vec::new()).is_empty());
}

#[test]
fn text_order() {
    assert!(chars_le(&"abc".chars().collect(), &"abd".chars().collect()));
    assert!(chars_le(&"ab".chars().collect(), &"abc".chars().collect()));
    assert!(!chars_le(&"b".chars().collect(), &"abc".chars().collect()));
    assert!(chars_le(&Vec::new(), &Vec::new()));
}

#[test]
fn batches_cover_urls_in_order() {
    let urls: Vec<String> = (0..10).map(|i| format!("u{}", i)).collect();
    let b = url_batches(&urls, 4);
    assert_eq!(b.len(), 4);
    assert_eq!(b.concat(), urls);
    assert_eq!(b[0].len(), 3);
    let two: Vec<String> = vec!["x".to_string(), "y".to_string()];
    let b2 = url_batches(&two, 4);
    assert_eq!(b2.len(), 4);
    assert_eq!(b2.concat(), two);
}

#[test]
fn reader_needs_a_genre() {
    assert_eq!(RssReader::new(settings(1, &[]), &Vec::new()).unwrap_err(), ConfigError::NoGenres);
    let rss = reader(1, &[]);
    assert_eq!(rss.selected_genre, "tech");
    assert_eq!(rss.feed_genres, vec!["tech".to_string(), "news".to_string()]);
}

#[test]
fn selected_urls_unknown_genre() {
    let mut rss = reader(1, &[]);
    let urls = rss.geturls(&genres());
    rss.selected_genre = "sports".to_string();
    assert!(rss.selected_urls(&urls).is_none());
    rss.selected_genre = "news".to_string();
    assert_eq!(rss.selected_urls(&urls), Some(vec!["http://c/rss".to_string()]));
}

#[test]
fn mode_selection() {
    assert!(fetch_needed("", false));
    assert!(fetch_needed("word", true));
    assert!(!fetch_needed("word", false));
}

#[test]
fn results_cut_to_limit() {
    let mut rss = reader(1, &[]);
    rss.feeds = (0..(MAX_RETURNED + 5)).map(|i| item(&format!("t{}", i), "l", "d")).collect();
    rss.limit_results();
    assert_eq!(rss.feeds.len(), MAX_RETURNED);
}

#[test]
fn text_helpers() {
    assert!(contains_text("hello world", "o w"));
    assert!(contains_text("abc", ""));
    assert!(!contains_text("abc", "abcd"));
}

#[test]
fn search_words_split_on_any_whitespace() {
    let mut rss = reader(1, &[]);
    rss.search_word = "ALPHA\t beta".to_string();
    rss.feeds = vec![item("beta alpha", "l", "1"), item("alpha", "l", "2"), item("Beta-Alpha", "l", "3")];
    rss.filter_word();
    assert_eq!(titles(&rss.feeds), vec!["beta alpha".to_string(), "Beta-Alpha".to_string()]);
}

#[test]
fn skip_feed_by_link_or_title() {
    let rss = RssReader::new(
        SettingItem::new(1, vec!["Ad:".to_string()], vec![" spam.example ".to_string()], Vec::new()),
        &genres(),
    )
    .unwrap();
    let e = item("Ad: buy", "http://spam.example/x", "d");
    assert!(rss.is_skip_feed(&e, true));
    assert!(rss.is_skip_feed(&e, false));
    let f = item("news", "http://site/x", "d");
    assert!(!rss.is_skip_feed(&f, true));
    assert!(!rss.is_skip_feed(&f, false));
}

#[test]
fn rule_helpers() {
    assert!(link_skipped("http://ads.example/x", &vec![" ads. ".to_string()]));
    assert!(!link_skipped("http://site/x", &vec!["".to_string(), " ".to_string()]));
    assert!(title_skipped("Sponsored post", &vec!["Sponsored".to_string()]));
    assert!(!title_skipped("Sponsored post", &vec!["".to_string(), " Sponsored".to_string()]));
    assert!(title_matches("Big NEWS today", &vec!["news".to_string(), "BIG".to_string()]));
    assert!(!title_matches("Big", &vec!["news".to_string()]));
}

#[test]
fn retain_and_compare() {
    let v = vec![item("a", "l", "1"), item("b", "l", "2")];
    assert_eq!(retain_newest(&v, 1).len(), 1);
    assert_eq!(retain_newest(&v, 9).len(), 2);
    assert!(same_entries(&v, &v.clone()));
    assert!(!same_entries(&v, &vec![item("a", "l", "1")]));
}

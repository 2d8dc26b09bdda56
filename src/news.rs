//! The latest entries of the distribution's news feed.
use vstd::prelude::*;
use crate::history::{occurs_at, occurs_at_exec};
use crate::text::chars_of;

verus! {

broadcast use vstd::string::group_string_axioms;

/// The fields of a feed item that the news list shows, where present.
pub struct FeedItem {
    pub title: Option<String>,
    pub link: Option<String>,
    pub pub_date: Option<String>,
}

/// A news entry as shown to the user.
pub struct NewsItem {
    pub title: String,
    pub link: String,
    pub pub_date: String,
}

pub open spec fn opt_view(o: Option<String>) -> Option<Seq<char>> {
    match o {
        Some(s) => Some(s@),
        None => None,
    }
}

pub open spec fn feed_item_view(i: FeedItem) -> (
    Option<Seq<char>>,
    Option<Seq<char>>,
    Option<Seq<char>>,
) {
    (opt_view(i.title), opt_view(i.link), opt_view(i.pub_date))
}

pub open spec fn feed_views(v: Seq<FeedItem>) -> Seq<
    (Option<Seq<char>>, Option<Seq<char>>, Option<Seq<char>>),
> {
    v.map_values(|i: FeedItem| feed_item_view(i))
}

pub open spec fn news_views(v: Seq<NewsItem>) -> Seq<(Seq<char>, Seq<char>, Seq<char>)> {
    v.map_values(|n: NewsItem| (n.title@, n.link@, n.pub_date@))
}

/// The items, with their title, link and publication date, of the RSS
/// document `doc`; `None` where it is no RSS document.
pub uninterp spec fn feed_items_of(doc: Seq<char>) -> Option<
    Seq<(Option<Seq<char>>, Option<Seq<char>>, Option<Seq<char>>)>,
>;

/// The deepest element nesting a document handed to the feed parser may
/// have. The parser descends once per nested element with no limit of its
/// own, so this bounds its recursion.
pub const MAX_FEED_DEPTH: usize = 256;

/// Where a scan of XML text stands: in text, inside a start or end tag
/// (possibly within a quoted attribute value), or inside a comment, a CDATA
/// section, a processing instruction or a document type declaration.
#[derive(PartialEq, Eq, Structural, Clone, Copy, Debug)]
pub enum XmlScan {
    Text,
    StartTag,
    StartTagQuoted(char),
    EndTag,
    EndTagQuoted(char),
    Comment,
    CData,
    Pi,
    DocType,
    DocTypeQuoted(char),
}

pub open spec fn comment_end() -> Seq<char> {
    seq!['-', '-', '>']
}

pub open spec fn cdata_end() -> Seq<char> {
    seq![']', ']', '>']
}

pub open spec fn pi_end() -> Seq<char> {
    seq!['?', '>']
}

pub open spec fn less_one(d: nat) -> nat {
    if d > 0 {
        (d - 1) as nat
    } else {
        0
    }
}

pub open spec fn is_quote(c: char) -> bool {
    c == '"' || c == '\''
}

/// Scans `s` from `i` in state `st` with `d` elements open and `m` the most
/// open so far; the result is the most elements ever open. Markup is
/// delimited as an XML reader delimits it: comments end at the first `-->`
/// at least four characters after their `<`, CDATA sections at the first
/// `]]>`, processing instructions at the first `?>` after the `<`, and tags
/// at the first `>` outside quotes. A start tag opens an element unless it
/// ends in `/>`; an end tag closes one. `None` where a document type
/// declaration has an internal subset, which the scan does not follow.
pub open spec fn scan_depth(s: Seq<char>, i: int, st: XmlScan, d: nat, m: nat) -> Option<nat>
    decreases s.len() - i,
{
    if i < 0 || i >= s.len() {
        Some(m)
    } else {
        let c = s[i];
        match st {
            XmlScan::Text => if c != '<' {
                scan_depth(s, i + 1, XmlScan::Text, d, m)
            } else if i + 1 >= s.len() {
                Some(m)
            } else if s[i + 1] == '!' {
                if i + 2 >= s.len() {
                    Some(m)
                } else if s[i + 2] == '-' {
                    if i + 4 > s.len() {
                        Some(m)
                    } else {
                        scan_depth(s, i + 4, XmlScan::Comment, d, m)
                    }
                } else if s[i + 2] == '[' {
                    scan_depth(s, i + 3, XmlScan::CData, d, m)
                } else if s[i + 2] == 'D' || s[i + 2] == 'd' {
                    scan_depth(s, i + 3, XmlScan::DocType, d, m)
                } else {
                    Some(m)
                }
            } else if s[i + 1] == '?' {
                scan_depth(s, i + 1, XmlScan::Pi, d, m)
            } else if s[i + 1] == '/' {
                scan_depth(s, i + 2, XmlScan::EndTag, less_one(d), m)
            } else {
                scan_depth(s, i + 1, XmlScan::StartTag, d + 1, if m > d + 1 { m } else { d + 1 })
            },
            XmlScan::StartTag => if is_quote(c) {
                scan_depth(s, i + 1, XmlScan::StartTagQuoted(c), d, m)
            } else if c == '>' {
                scan_depth(s, i + 1, XmlScan::Text, if s[i - 1] == '/' { less_one(d) } else { d }, m)
            } else {
                scan_depth(s, i + 1, XmlScan::StartTag, d, m)
            },
            XmlScan::StartTagQuoted(q) => if c == q {
                scan_depth(s, i + 1, XmlScan::StartTag, d, m)
            } else {
                scan_depth(s, i + 1, st, d, m)
            },
            XmlScan::EndTag => if is_quote(c) {
                scan_depth(s, i + 1, XmlScan::EndTagQuoted(c), d, m)
            } else if c == '>' {
                scan_depth(s, i + 1, XmlScan::Text, d, m)
            } else {
                scan_depth(s, i + 1, XmlScan::EndTag, d, m)
            },
            XmlScan::EndTagQuoted(q) => if c == q {
                scan_depth(s, i + 1, XmlScan::EndTag, d, m)
            } else {
                scan_depth(s, i + 1, st, d, m)
            },
            XmlScan::Comment => if occurs_at(s, comment_end(), i) {
                scan_depth(s, i + 3, XmlScan::Text, d, m)
            } else {
                scan_depth(s, i + 1, st, d, m)
            },
            XmlScan::CData => if occurs_at(s, cdata_end(), i) {
                scan_depth(s, i + 3, XmlScan::Text, d, m)
            } else {
                scan_depth(s, i + 1, st, d, m)
            },
            XmlScan::Pi => if occurs_at(s, pi_end(), i) {
                scan_depth(s, i + 2, XmlScan::Text, d, m)
            } else {
                scan_depth(s, i + 1, st, d, m)
            },
            XmlScan::DocType => if is_quote(c) {
                scan_depth(s, i + 1, XmlScan::DocTypeQuoted(c), d, m)
            } else if c == '[' {
                None
            } else if c == '>' {
                scan_depth(s, i + 1, XmlScan::Text, d, m)
            } else {
                scan_depth(s, i + 1, st, d, m)
            },
            XmlScan::DocTypeQuoted(q) => if c == q {
                scan_depth(s, i + 1, XmlScan::DocType, d, m)
            } else {
                scan_depth(s, i + 1, st, d, m)
            },
        }
    }
}

/// The number of occurrences of `c` in `s`.
pub open spec fn count_char(s: Seq<char>, c: char) -> nat
    decreases s.len(),
{
    if s.len() == 0 {
        0
    } else {
        count_char(s.drop_last(), c) + if s.last() == c {
            1nat
        } else {
            0nat
        }
    }
}

/// An upper bound on how deeply the elements of `doc` nest: the scan's
/// result, or where the scan gives up, the number of `<` characters.
pub open spec fn depth_bound(doc: Seq<char>) -> nat {
    match scan_depth(doc, 0, XmlScan::Text, 0, 0) {
        Some(m) => m,
        None => count_char(doc, '<'),
    }
}

fn scan_depth_exec(s: &Vec<char>) -> (r: Option<usize>)
    ensures
        match r {
            None => scan_depth(s@, 0, XmlScan::Text, 0, 0) is None,
            Some(m) => scan_depth(s@, 0, XmlScan::Text, 0, 0) == Some(m as nat),
        },
{
    let n = s.len();
    let dash_end = vec!['-', '-', '>'];
    let bracket_end = vec![']', ']', '>'];
    let question_end = vec!['?', '>'];
    assert(dash_end@ =~= comment_end());
    assert(bracket_end@ =~= cdata_end());
    assert(question_end@ =~= pi_end());
    let mut i: usize = 0;
    let mut st = XmlScan::Text;
    let mut d: usize = 0;
    let mut m: usize = 0;
    while i < n
        invariant
            n == s@.len(),
            i <= n,
            d <= i,
            m <= i,
            st == XmlScan::StartTag ==> i >= 1,
            dash_end@ == comment_end(),
            bracket_end@ == cdata_end(),
            question_end@ == pi_end(),
            scan_depth(s@, 0, XmlScan::Text, 0, 0) == scan_depth(
                s@,
                i as int,
                st,
                d as nat,
                m as nat,
            ),
        decreases n - i,
    {
        let c = s[i];
        match st {
            XmlScan::Text => {
                if c != '<' {
                    i = i + 1;
                } else if i + 1 >= n {
                    return Some(m);
                } else if s[i + 1] == '!' {
                    if i + 2 >= n {
                        return Some(m);
                    } else if s[i + 2] == '-' {
                        if n - i < 4 {
                            return Some(m);
                        }
                        st = XmlScan::Comment;
                        i = i + 4;
                    } else if s[i + 2] == '[' {
                        st = XmlScan::CData;
                        i = i + 3;
                    } else if s[i + 2] == 'D' || s[i + 2] == 'd' {
                        st = XmlScan::DocType;
                        i = i + 3;
                    } else {
                        return Some(m);
                    }
                } else if s[i + 1] == '?' {
                    st = XmlScan::Pi;
                    i = i + 1;
                } else if s[i + 1] == '/' {
                    if d > 0 {
                        d = d - 1;
                    }
                    st = XmlScan::EndTag;
                    i = i + 2;
                } else {
                    d = d + 1;
                    if d > m {
                        m = d;
                    }
                    st = XmlScan::StartTag;
                    i = i + 1;
                }
            },
            XmlScan::StartTag => {
                if c == '"' || c == '\'' {
                    st = XmlScan::StartTagQuoted(c);
                } else if c == '>' {
                    if s[i - 1] == '/' && d > 0 {
                        d = d - 1;
                    }
                    st = XmlScan::Text;
                }
                i = i + 1;
            },
            XmlScan::StartTagQuoted(q) => {
                if c == q {
                    st = XmlScan::StartTag;
                }
                i = i + 1;
            },
            XmlScan::EndTag => {
                if c == '"' || c == '\'' {
                    st = XmlScan::EndTagQuoted(c);
                } else if c == '>' {
                    st = XmlScan::Text;
                }
                i = i + 1;
            },
            XmlScan::EndTagQuoted(q) => {
                if c == q {
                    st = XmlScan::EndTag;
                }
                i = i + 1;
            },
            XmlScan::Comment => {
                if n - i >= 3 && occurs_at_exec(s, &dash_end, i) {
                    st = XmlScan::Text;
                    i = i + 3;
                } else {
                    i = i + 1;
                }
            },
            XmlScan::CData => {
                if n - i >= 3 && occurs_at_exec(s, &bracket_end, i) {
                    st = XmlScan::Text;
                    i = i + 3;
                } else {
                    i = i + 1;
                }
            },
            XmlScan::Pi => {
                if n - i >= 2 && occurs_at_exec(s, &question_end, i) {
                    st = XmlScan::Text;
                    i = i + 2;
                } else {
                    i = i + 1;
                }
            },
            XmlScan::DocType => {
                if c == '"' || c == '\'' {
                    st = XmlScan::DocTypeQuoted(c);
                } else if c == '[' {
                    return None;
                } else if c == '>' {
                    st = XmlScan::Text;
                }
                i = i + 1;
            },
            XmlScan::DocTypeQuoted(q) => {
                if c == q {
                    st = XmlScan::DocType;
                }
                i = i + 1;
            },
        }
    }
    Some(m)
}

/// Whether `cs` holds at most `limit` `<` characters.
fn at_most_open_brackets(cs: &Vec<char>, limit: usize) -> (r: bool)
    ensures
        r == (count_char(cs@, '<') <= limit),
{
    let mut n: usize = 0;
    let mut i: usize = 0;
    while i < cs.len()
        invariant
            i <= cs@.len(),
            n == count_char(cs@.subrange(0, i as int), '<'),
            n <= limit,
        decreases cs@.len() - i,
    {
        assert(cs@.subrange(0, i + 1).drop_last() =~= cs@.subrange(0, i as int));
        if cs[i] == '<' {
            if n == limit {
                proof {
                    lemma_count_prefix(cs@, i + 1);
                }
                return false;
            }
            n = n + 1;
        }
        i = i + 1;
    }
    assert(cs@.subrange(0, cs@.len() as int) =~= cs@);
    true
}

/// Whether the elements of `doc` provably nest no deeper than
/// `MAX_FEED_DEPTH`.
pub fn within_depth_limit(doc: &str) -> (r: bool)
    ensures
        r == (depth_bound(doc@) <= MAX_FEED_DEPTH),
{
    let cs = chars_of(doc);
    match scan_depth_exec(&cs) {
        Some(m) => m <= MAX_FEED_DEPTH,
        None => at_most_open_brackets(&cs, MAX_FEED_DEPTH),
    }
}

/// A prefix holds no more occurrences than the whole sequence.
proof fn lemma_count_prefix(s: Seq<char>, k: int)
    requires
        0 <= k <= s.len(),
    ensures
        count_char(s.subrange(0, k), '<') <= count_char(s, '<'),
    decreases s.len() - k,
{
    if k < s.len() {
        lemma_count_prefix(s, k + 1);
        assert(s.subrange(0, k + 1).drop_last() =~= s.subrange(0, k));
    } else {
        assert(s.subrange(0, k) =~= s);
    }
}

/// Relies on `rss::Channel::read_from`, which parses an RSS document and
/// fails on malformed input; `Channel::items` and `Item::{title, link,
/// pub_date}` only read the parsed fields. The bound on nesting keeps the
/// parser's recursion over nested elements shallow.
#[verifier::external_body]
fn read_feed(doc: &str) -> (r: Option<Vec<FeedItem>>)
    requires
        depth_bound(doc@) <= MAX_FEED_DEPTH,
    ensures
        match r {
            None => feed_items_of(doc@) is None,
            Some(v) => feed_items_of(doc@) == Some(feed_views(v@)),
        },
{
    match rss::Channel::read_from(doc.as_bytes()) {
        Ok(channel) => Some(channel.items().iter().map(|i| FeedItem {
            title: i.title().map(|s| s.to_string()),
            link: i.link().map(|s| s.to_string()),
            pub_date: i.pub_date().map(|s| s.to_string()),
        }).collect()),
        Err(_) => None,
    }
}

/// How many feed entries the news list shows.
pub const NEWS_LIMIT: usize = 5;

pub open spec fn or_default(o: Option<Seq<char>>, d: Seq<char>) -> Seq<char> {
    match o {
        Some(s) => s,
        None => d,
    }
}

/// The news entry of a feed item: a missing title reads "No Title", a
/// missing link "#", a missing date the empty string.
pub open spec fn news_of_item(i: (Option<Seq<char>>, Option<Seq<char>>, Option<Seq<char>>)) -> (
    Seq<char>,
    Seq<char>,
    Seq<char>,
) {
    (or_default(i.0, "No Title"@), or_default(i.1, "#"@), or_default(i.2, ""@))
}

/// The news entries of the first items of a feed.
pub open spec fn news_of(
    items: Seq<(Option<Seq<char>>, Option<Seq<char>>, Option<Seq<char>>)>,
) -> Seq<(Seq<char>, Seq<char>, Seq<char>)> {
    let n = if items.len() < NEWS_LIMIT {
        items.len()
    } else {
        NEWS_LIMIT as nat
    };
    Seq::new(n, |k: int| news_of_item(items[k]))
}

fn text_or(o: &Option<String>, d: &str) -> (r: String)
    ensures
        r@ == or_default(opt_view(*o), d@),
{
    match o {
        Some(s) => s.clone(),
        None => String::from_str(d),
    }
}

/// The news entries of the first feed items, with defaults for missing fields.
pub fn news_from_items(items: &Vec<FeedItem>) -> (r: Vec<NewsItem>)
    ensures
        news_views(r@) == news_of(feed_views(items@)),
{
    let ghost fv = feed_views(items@);
    let mut r: Vec<NewsItem> = Vec::new();
    let mut i: usize = 0;
    while i < items.len() && i < NEWS_LIMIT
        invariant
            i <= items@.len(),
            i <= NEWS_LIMIT,
            fv == feed_views(items@),
            news_views(r@) == Seq::new(i as nat, |k: int| news_of_item(fv[k])),
        decreases items@.len() - i,
    {
        let it = &items[i];
        let n = NewsItem {
            title: text_or(&it.title, "No Title"),
            link: text_or(&it.link, "#"),
            pub_date: text_or(&it.pub_date, ""),
        };
        assert(fv[i as int] == feed_item_view(items@[i as int]));
        assert((n.title@, n.link@, n.pub_date@) == news_of_item(fv[i as int]));
        let ghost r0 = news_views(r@);
        r.push(n);
        assert(news_views(r@) =~= r0.push(news_of_item(fv[i as int])));
        i = i + 1;
        assert(news_views(r@) =~= Seq::new(i as nat, |k: int| news_of_item(fv[k])));
    }
    assert(news_views(r@) =~= news_of(fv));
    r
}

/// The news entries of an RSS document: none where it does not parse or
/// its elements may nest deeper than `MAX_FEED_DEPTH`.
pub fn news_items(doc: &str) -> (r: Vec<NewsItem>)
    ensures
        news_views(r@) == if depth_bound(doc@) > MAX_FEED_DEPTH {
            Seq::empty()
        } else {
            match feed_items_of(doc@) {
                None => Seq::empty(),
                Some(items) => news_of(items),
            }
        },
{
    if !within_depth_limit(doc) {
        let r: Vec<NewsItem> = Vec::new();
        assert(news_views(r@) =~= Seq::empty());
        return r;
    }
    match read_feed(doc) {
        None => {
            let r: Vec<NewsItem> = Vec::new();
            assert(news_views(r@) =~= Seq::empty());
            r
        },
        Some(items) => news_from_items(&items),
    }
}

} // verus!

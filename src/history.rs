//! Resolution of a package's archived versions from the archive's
//! server-generated directory listing.
use vstd::prelude::*;
use crate::filename::{ends_with, has_prefix, has_suffix, starts_with};
use crate::text::{chars_of, lines, split_lines, string_from, string_views, views};

verus! {

broadcast use vstd::string::group_string_axioms;

/// Where the archive keeps one directory per package, grouped by first letter.
pub open spec fn archive_base() -> Seq<char> {
    "https://archive.archlinux.org/packages/"@
}

/// The bucket of a package: its first character, or `a` for an empty name.
pub open spec fn bucket_of(name: Seq<char>) -> char {
    if name.len() > 0 {
        name[0]
    } else {
        'a'
    }
}

/// The index URL of a package: `<base><first letter>/<name>/`.
pub open spec fn index_url_of(name: Seq<char>) -> Seq<char> {
    archive_base() + seq![bucket_of(name)] + seq!['/'] + name + seq!['/']
}

/// The attribute marker that opens a link target.
pub open spec fn href_marker() -> Seq<char> {
    seq!['h', 'r', 'e', 'f', '=', '"']
}

/// The archive suffix followed by the closing quote of a link target.
pub open spec fn quoted_suffix() -> Seq<char> {
    seq!['.', 'p', 'k', 'g', '.', 't', 'a', 'r', '.', 'z', 's', 't', '"']
}

/// The suffix of a detached signature.
pub open spec fn sig_suffix() -> Seq<char> {
    seq!['.', 's', 'i', 'g']
}

pub open spec fn occurs_at(s: Seq<char>, pat: Seq<char>, i: int) -> bool {
    0 <= i && i + pat.len() <= s.len() && s.subrange(i, i + pat.len()) == pat
}

/// The first position at or after `i` where `pat` occurs in `s`.
pub open spec fn find_from(s: Seq<char>, pat: Seq<char>, i: int) -> Option<int>
    decreases s.len() + 1 - i,
{
    if i < 0 || i + pat.len() > s.len() {
        None
    } else if occurs_at(s, pat, i) {
        Some(i)
    } else {
        find_from(s, pat, i + 1)
    }
}

/// The quoted target of the first link marker of a line that mentions a
/// quoted archive name; `None` where the line has no such target or the
/// target is not closed by a quote.
pub open spec fn link_target(line: Seq<char>) -> Option<Seq<char>> {
    match find_from(line, href_marker(), 0) {
        None => None,
        Some(m) => if find_from(line, quoted_suffix(), 0) is None {
            None
        } else {
            let start = m + href_marker().len();
            match find_from(line, seq!['"'], start) {
                None => None,
                Some(end) => Some(line.subrange(start, end)),
            }
        },
    }
}

/// A target is kept when it is no signature and starts with the package name.
pub open spec fn keeps_target(name: Seq<char>, t: Seq<char>) -> bool {
    !ends_with(t, sig_suffix()) && starts_with(t, name)
}

/// The URLs of the kept targets of the lines, in document order.
pub open spec fn links_of_lines(name: Seq<char>, url: Seq<char>, ls: Seq<Seq<char>>) -> Seq<
    Seq<char>,
>
    decreases ls.len(),
{
    if ls.len() == 0 {
        Seq::empty()
    } else {
        let p = links_of_lines(name, url, ls.drop_last());
        match link_target(ls.last()) {
            Some(t) => if keeps_target(name, t) {
                p.push(url + t)
            } else {
                p
            },
            None => p,
        }
    }
}

/// The history of a package from its listing page: the archive URLs it
/// links to, newest (last listed) first.
pub open spec fn history_of(name: Seq<char>, page: Seq<char>) -> Seq<Seq<char>> {
    links_of_lines(name, index_url_of(name), lines(page)).reverse()
}

/// The index URL of a package's directory in the archive.
pub fn index_url(name: &str) -> (r: String)
    ensures
        r@ == index_url_of(name@),
{
    let cs = chars_of(name);
    let mut r = String::from_str("https://archive.archlinux.org/packages/");
    if cs.len() > 0 {
        r.push(cs[0]);
    } else {
        r.push('a');
    }
    r.push('/');
    r.append(name);
    r.push('/');
    r
}

pub(crate) fn occurs_at_exec(s: &Vec<char>, pat: &Vec<char>, i: usize) -> (r: bool)
    requires
        i + pat@.len() <= s@.len(),
    ensures
        r == occurs_at(s@, pat@, i as int),
{
    let n = s.len();
    let mut k: usize = 0;
    while k < pat.len()
        invariant
            i + pat@.len() <= s@.len(),
            n == s@.len(),
            k <= pat@.len(),
            forall|q: int| 0 <= q < k ==> s@[i + q] == pat@[q],
        decreases pat@.len() - k,
    {
        if s[i + k] != pat[k] {
            assert(s@.subrange(i as int, i + pat@.len())[k as int] != pat@[k as int]);
            return false;
        }
        k = k + 1;
    }
    assert(s@.subrange(i as int, i + pat@.len()) =~= pat@);
    true
}

pub fn find_from_exec(s: &Vec<char>, pat: &Vec<char>, from: usize) -> (r: Option<usize>)
    ensures
        match r {
            None => find_from(s@, pat@, from as int) is None,
            Some(i) => from <= i && i + pat@.len() <= s@.len() && find_from(s@, pat@, from as int)
                == Some(i as int),
        },
{
    if from > s.len() {
        return None;
    }
    let mut i = from;
    while pat.len() <= s.len() - i
        invariant
            from <= i <= s@.len(),
            find_from(s@, pat@, from as int) == find_from(s@, pat@, i as int),
        decreases s@.len() + 1 - i,
    {
        if occurs_at_exec(s, pat, i) {
            return Some(i);
        }
        if i == s.len() {
            assert(find_from(s@, pat@, i + 1) is None);
            return None;
        }
        i = i + 1;
    }
    None
}

fn link_target_exec(line: &Vec<char>) -> (r: Option<Vec<char>>)
    ensures
        match r {
            None => link_target(line@) is None,
            Some(t) => link_target(line@) == Some(t@),
        },
{
    let marker = vec!['h', 'r', 'e', 'f', '=', '"'];
    let quoted = vec!['.', 'p', 'k', 'g', '.', 't', 'a', 'r', '.', 'z', 's', 't', '"'];
    let quote = vec!['"'];
    assert(marker@ =~= href_marker());
    assert(quoted@ =~= quoted_suffix());
    assert(quote@ =~= seq!['"']);
    match find_from_exec(line, &marker, 0) {
        None => None,
        Some(m) => {
            if find_from_exec(line, &quoted, 0).is_none() {
                return None;
            }
            // the marker lies within the line, so its end fits in a usize
            let line_len = line.len();
            assert(m + marker@.len() <= line_len);
            let start = m + marker.len();
            match find_from_exec(line, &quote, start) {
                None => None,
                Some(end) => {
                    let mut t: Vec<char> = Vec::new();
                    let mut k = start;
                    while k < end
                        invariant
                            start <= k <= end <= line@.len(),
                            t@ == line@.subrange(start as int, k as int),
                        decreases end - k,
                    {
                        t.push(line[k]);
                        assert(line@.subrange(start as int, k + 1) =~= t@);
                        k = k + 1;
                    }
                    Some(t)
                },
            }
        },
    }
}

/// Extracts a package's archive URLs from its listing page: signatures and
/// other packages' files are left out, and the newest (last listed) comes
/// first.
pub fn parse_history_page(name: &str, page: &str) -> (r: Vec<String>)
    ensures
        string_views(r@) == history_of(name@, page@),
{
    let url = index_url(name);
    let ncs = chars_of(name);
    let sig = vec!['.', 's', 'i', 'g'];
    assert(sig@ =~= sig_suffix());
    let ls = split_lines(&chars_of(page));
    let mut found: Vec<String> = Vec::new();
    let mut i: usize = 0;
    while i < ls.len()
        invariant
            i <= ls@.len(),
            views(ls@) == lines(page@),
            url@ == index_url_of(name@),
            ncs@ == name@,
            sig@ == sig_suffix(),
            string_views(found@) == links_of_lines(
                name@,
                url@,
                views(ls@).subrange(0, i as int),
            ),
        decreases ls@.len() - i,
    {
        let ghost pre = views(ls@).subrange(0, i + 1);
        assert(pre.drop_last() =~= views(ls@).subrange(0, i as int));
        assert(pre.last() == ls@[i as int]@);
        let ghost f0 = string_views(found@);
        match link_target_exec(&ls[i]) {
            None => {},
            Some(t) => {
                if !has_suffix(&t, &sig) && has_prefix(&t, &ncs) {
                    let ts = string_from(&t);
                    let full = url.clone().concat(ts.as_str());
                    found.push(full);
                    assert(string_views(found@) =~= f0.push(url@ + t@));
                }
            },
        }
        i = i + 1;
    }
    assert(views(ls@).subrange(0, ls@.len() as int) =~= views(ls@));
    let ghost fwd = string_views(found@);
    let mut r: Vec<String> = Vec::new();
    let mut k = found.len();
    while k > 0
        invariant
            k <= found@.len(),
            fwd == string_views(found@),
            r@.len() == found@.len() - k,
            forall|q: int| 0 <= q < r@.len() ==> #[trigger] r@[q]@ == fwd[fwd.len() - 1 - q],
        decreases k,
    {
        k = k - 1;
        r.push(found[k].clone());
    }
    assert(string_views(r@) =~= fwd.reverse());
    r
}

} // verus!

//! Decomposition of package archive file names of the shape
//! `<name>-<version>-<release>-<arch>.pkg.tar.zst`.
use vstd::prelude::*;
use crate::text::{chars_of, string_of};

verus! {

/// The archive suffix of an installable package file.
pub open spec fn archive_suffix() -> Seq<char> {
    seq!['.', 'p', 'k', 'g', '.', 't', 'a', 'r', '.', 'z', 's', 't']
}

pub fn archive_suffix_chars() -> (r: Vec<char>)
    ensures
        r@ == archive_suffix(),
{
    let r = vec!['.', 'p', 'k', 'g', '.', 't', 'a', 'r', '.', 'z', 's', 't'];
    assert(r@ =~= archive_suffix());
    r
}

pub open spec fn ends_with(s: Seq<char>, suffix: Seq<char>) -> bool {
    suffix.len() <= s.len() && s.subrange(s.len() - suffix.len(), s.len() as int) == suffix
}

pub open spec fn starts_with(s: Seq<char>, prefix: Seq<char>) -> bool {
    prefix.len() <= s.len() && s.subrange(0, prefix.len() as int) == prefix
}

/// The position of the last `-` strictly before `end`.
pub open spec fn last_dash_before(s: Seq<char>, end: int) -> Option<int>
    decreases end,
{
    if end <= 0 {
        None
    } else if s[end - 1] == '-' {
        Some(end - 1)
    } else {
        last_dash_before(s, end - 1)
    }
}

/// The package name of an archive file name: the text before the third dash
/// counted from the right, provided the name ends in the archive suffix.
pub open spec fn package_name(s: Seq<char>) -> Option<Seq<char>> {
    if !ends_with(s, archive_suffix()) {
        None
    } else {
        match last_dash_before(s, s.len() as int) {
            None => None,
            Some(a) => match last_dash_before(s, a) {
                None => None,
                Some(b) => match last_dash_before(s, b) {
                    None => None,
                    Some(c) => Some(s.subrange(0, c)),
                },
            },
        }
    }
}

pub fn has_suffix(s: &Vec<char>, suffix: &Vec<char>) -> (r: bool)
    ensures
        r == ends_with(s@, suffix@),
{
    if suffix.len() > s.len() {
        return false;
    }
    let off = s.len() - suffix.len();
    let mut i: usize = 0;
    while i < suffix.len()
        invariant
            off + suffix@.len() == s@.len(),
            s@.len() <= usize::MAX,
            i <= suffix@.len(),
            forall|k: int| 0 <= k < i ==> s@[off + k] == suffix@[k],
        decreases suffix@.len() - i,
    {
        if s[off + i] != suffix[i] {
            assert(s@.subrange(off as int, s@.len() as int)[i as int] != suffix@[i as int]);
            return false;
        }
        i = i + 1;
    }
    assert(s@.subrange(off as int, s@.len() as int) =~= suffix@);
    true
}

pub fn has_prefix(s: &Vec<char>, prefix: &Vec<char>) -> (r: bool)
    ensures
        r == starts_with(s@, prefix@),
{
    if prefix.len() > s.len() {
        return false;
    }
    let mut i: usize = 0;
    while i < prefix.len()
        invariant
            prefix@.len() <= s@.len(),
            i <= prefix@.len(),
            forall|k: int| 0 <= k < i ==> s@[k] == prefix@[k],
        decreases prefix@.len() - i,
    {
        if s[i] != prefix[i] {
            assert(s@.subrange(0, prefix@.len() as int)[i as int] != prefix@[i as int]);
            return false;
        }
        i = i + 1;
    }
    assert(s@.subrange(0, prefix@.len() as int) =~= prefix@);
    true
}

pub fn find_last_dash(s: &Vec<char>, end: usize) -> (r: Option<usize>)
    requires
        end <= s@.len(),
    ensures
        match r {
            None => last_dash_before(s@, end as int) is None,
            Some(i) => i < end && last_dash_before(s@, end as int) == Some(i as int),
        },
{
    let mut e = end;
    while e > 0
        invariant
            e <= end <= s@.len(),
            last_dash_before(s@, end as int) == last_dash_before(s@, e as int),
        decreases e,
    {
        if s[e - 1] == '-' {
            return Some(e - 1);
        }
        e = e - 1;
    }
    None
}

/// Where the package name of an archive file name ends, on its characters.
pub fn package_name_end(s: &Vec<char>) -> (r: Option<usize>)
    ensures
        match r {
            None => package_name(s@) is None,
            Some(c) => c <= s@.len() && package_name(s@) == Some(s@.subrange(0, c as int)),
        },
{
    let suffix = archive_suffix_chars();
    if !has_suffix(s, &suffix) {
        return None;
    }
    match find_last_dash(s, s.len()) {
        None => None,
        Some(a) => match find_last_dash(s, a) {
            None => None,
            Some(b) => find_last_dash(s, b),
        },
    }
}

/// The package name of an archive file name: `None` where the name does not
/// end in the archive suffix or has fewer than three dashes.
pub fn package_name_of(filename: &str) -> (r: Option<String>)
    ensures
        match r {
            None => package_name(filename@) is None,
            Some(n) => package_name(filename@) == Some(n@),
        },
{
    let cs = chars_of(filename);
    match package_name_end(&cs) {
        None => None,
        Some(c) => Some(string_of(&cs, 0, c)),
    }
}

/// Whether two character vectors are equal.
pub fn same_chars(a: &Vec<char>, b: &Vec<char>) -> (r: bool)
    ensures
        r == (a@ == b@),
{
    if a.len() != b.len() {
        return false;
    }
    let r = has_prefix(a, b);
    assert(a@.subrange(0, a@.len() as int) =~= a@);
    r
}

proof fn lemma_last_dash_skip(s: Seq<char>, lo: int, end: int)
    requires
        0 <= lo <= end <= s.len(),
        forall|k: int| lo <= k < end ==> s[k] != '-',
    ensures
        last_dash_before(s, end) == last_dash_before(s, lo),
    decreases end - lo,
{
    if end > lo {
        lemma_last_dash_skip(s, lo, end - 1);
    }
}

proof fn lemma_last_dash_found(s: Seq<char>, end: int)
    requires
        end <= s.len(),
    ensures
        match last_dash_before(s, end) {
            None => forall|k: int| 0 <= k < end ==> s[k] != '-',
            Some(i) => 0 <= i < end && s[i] == '-',
        },
    decreases end,
{
    if end > 0 && s[end - 1] != '-' {
        lemma_last_dash_found(s, end - 1);
    }
}

/// A file name built as name, version, release and architecture joined by
/// dashes and followed by the archive suffix decomposes to exactly that name,
/// whatever dashes the name holds, as long as the three trailing fields have
/// none.
pub proof fn lemma_package_name_of_parts(
    name: Seq<char>,
    version: Seq<char>,
    release: Seq<char>,
    arch: Seq<char>,
)
    requires
        forall|k: int| 0 <= k < version.len() ==> version[k] != '-',
        forall|k: int| 0 <= k < release.len() ==> release[k] != '-',
        forall|k: int| 0 <= k < arch.len() ==> arch[k] != '-',
    ensures
        package_name(
            name + seq!['-'] + version + seq!['-'] + release + seq!['-'] + arch + archive_suffix(),
        ) == Some(name),
{
    let s = name + seq!['-'] + version + seq!['-'] + release + seq!['-'] + arch + archive_suffix();
    let c = name.len() as int;
    let b = c + 1 + version.len();
    let a = b + 1 + release.len();
    let e = a + 1 + arch.len();
    assert(s.len() == e + 12);
    assert(s.subrange(s.len() - 12, s.len() as int) =~= archive_suffix());
    assert forall|k: int| a + 1 <= k < s.len() implies s[k] != '-' by {
        if k < e {
            assert(s[k] == arch[k - a - 1]);
        } else {
            assert(s[k] == archive_suffix()[k - e]);
        }
    }
    lemma_last_dash_skip(s, a + 1, s.len() as int);
    assert(s[a] == '-');
    assert forall|k: int| b + 1 <= k < a implies s[k] != '-' by {
        assert(s[k] == release[k - b - 1]);
    }
    lemma_last_dash_skip(s, b + 1, a);
    assert(s[b] == '-');
    assert forall|k: int| c + 1 <= k < b implies s[k] != '-' by {
        assert(s[k] == version[k - c - 1]);
    }
    lemma_last_dash_skip(s, c + 1, b);
    assert(s[c] == '-');
    assert(s.subrange(0, c) =~= name);
}

/// A file name with fewer than three dashes has no package name.
pub proof fn lemma_package_name_needs_three_dashes(s: Seq<char>)
    requires
        !(exists|i: int, j: int, k: int|
            0 <= i < j < k < s.len() && s[i] == '-' && s[j] == '-' && s[k] == '-'),
    ensures
        package_name(s) is None,
{
    if package_name(s) is Some {
        let a = last_dash_before(s, s.len() as int)->0;
        lemma_last_dash_found(s, s.len() as int);
        let b = last_dash_before(s, a)->0;
        lemma_last_dash_found(s, a);
        let c = last_dash_before(s, b)->0;
        lemma_last_dash_found(s, b);
        assert(0 <= c < b < a < s.len() && s[c] == '-' && s[b] == '-' && s[a] == '-');
    }
}

} // verus!

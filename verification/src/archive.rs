//! Where an archive comes from and what its entries are for: the pattern of
//! the object keys that name an archive, and the kinds of archive entries.

use vstd::prelude::*;
use crate::ident::is_ascii_text;
use crate::text::{chars_of, text_of};

verus! {

/// The characters that the pattern admits in an identifier.
pub open spec fn is_segment_char(c: char) -> bool {
    ('0' <= c && c <= '9') || ('a' <= c && c <= 'f') || c == '-'
}

/// `"v1/SYNC/"`.
pub open spec fn archive_prefix() -> Seq<char> {
    seq!['v', '1', '/', 'S', 'Y', 'N', 'C', '/']
}

/// `".zip"`.
pub open spec fn archive_suffix() -> Seq<char> {
    seq!['.', 'z', 'i', 'p']
}

/// The part of a key that holds the customer's identifier.
pub open spec fn customer_segment(key: Seq<char>) -> Seq<char> {
    key.subrange(8, 44)
}

/// The part of a key that holds the vessel's identifier.
pub open spec fn vessel_segment(key: Seq<char>) -> Seq<char> {
    key.subrange(45, 81)
}

/// `key` has the form `v1/SYNC/<customer>/<vessel>/<anything>.zip`: both
/// identifiers are 36 characters out of `0-9`, `a-f` and `-`, and what
/// follows them is on one line.
pub open spec fn is_archive_key(key: Seq<char>) -> bool {
    &&& key.len() >= 86
    &&& key.subrange(0, 8) == archive_prefix()
    &&& forall|i: int| 8 <= i < 44 ==> is_segment_char(#[trigger] key[i])
    &&& key[44] == '/'
    &&& forall|i: int| 45 <= i < 81 ==> is_segment_char(#[trigger] key[i])
    &&& key[81] == '/'
    &&& forall|i: int| 82 <= i < key.len() ==> #[trigger] key[i] != '\n'
    &&& key.subrange(key.len() - 4, key.len() as int) == archive_suffix()
}

fn segment_char(c: char) -> (r: bool)
    ensures
        r == is_segment_char(c),
{
    (c >= '0' && c <= '9') || (c >= 'a' && c <= 'f') || c == '-'
}

/// Whether `v[from..to]` holds segment characters only.
fn is_segment(v: &Vec<char>, from: usize, to: usize) -> (r: bool)
    requires
        from <= to <= v.len(),
    ensures
        r == forall|i: int| from <= i < to ==> is_segment_char(#[trigger] v@[i]),
{
    let mut i: usize = from;
    while i < to
        invariant
            from <= i <= to <= v.len(),
            forall|k: int| from <= k < i ==> is_segment_char(#[trigger] v@[k]),
        decreases to - i,
    {
        if !segment_char(v[i]) {
            return false;
        }
        i += 1;
    }
    true
}

/// Whether `v[from..]` holds no line feed.
fn is_one_line(v: &Vec<char>, from: usize) -> (r: bool)
    requires
        from <= v.len(),
    ensures
        r == forall|i: int| from <= i < v.len() ==> #[trigger] v@[i] != '\n',
{
    let mut i: usize = from;
    while i < v.len()
        invariant
            from <= i <= v.len(),
            forall|k: int| from <= k < i ==> #[trigger] v@[k] != '\n',
        decreases v.len() - i,
    {
        if v[i] == '\n' {
            return false;
        }
        i += 1;
    }
    true
}

/// The identifiers that an object key names, customer first, where the key
/// is that of an archive.
pub fn resolve_archive_key(key: &str) -> (r: Option<(String, String)>)
    ensures
        match r {
            Some((customer, vessel)) => is_archive_key(key@) && customer@ == customer_segment(key@)
                && vessel@ == vessel_segment(key@),
            None => !is_archive_key(key@),
        },
{
    let v = chars_of(key);
    let n = v.len();
    if n < 86 {
        return None;
    }
    let prefixed = v[0] == 'v' && v[1] == '1' && v[2] == '/' && v[3] == 'S' && v[4] == 'Y' && v[5]
        == 'N' && v[6] == 'C' && v[7] == '/';
    let suffixed = v[n - 4] == '.' && v[n - 3] == 'z' && v[n - 2] == 'i' && v[n - 1] == 'p';
    proof {
        let p = key@.subrange(0, 8);
        let s = key@.subrange(n - 4, n as int);
        if prefixed {
            assert(p =~= archive_prefix());
        } else {
            assert(p[0] == key@[0] && p[1] == key@[1] && p[2] == key@[2] && p[3] == key@[3]);
            assert(p[4] == key@[4] && p[5] == key@[5] && p[6] == key@[6] && p[7] == key@[7]);
        }
        if suffixed {
            assert(s =~= archive_suffix());
        } else {
            assert(s[0] == key@[n - 4] && s[1] == key@[n - 3] && s[2] == key@[n - 2] && s[3]
                == key@[n - 1]);
        }
    }
    if prefixed && suffixed && is_segment(&v, 8, 44) && v[44] == '/' && is_segment(&v, 45, 81)
        && v[81] == '/' && is_one_line(&v, 82) {
        Some((text_of(&v, 8, 44), text_of(&v, 45, 81)))
    } else {
        None
    }
}

/// The identifiers of an archive key are texts of 36 one-byte characters.
pub proof fn lemma_segment_is_plain(key: Seq<char>)
    requires
        is_archive_key(key),
    ensures
        customer_segment(key).len() == 36,
        vessel_segment(key).len() == 36,
        is_ascii_text(customer_segment(key)),
        is_ascii_text(vessel_segment(key)),
{
    assert forall|i: int| 0 <= i < 36 implies (#[trigger] customer_segment(key)[i]) as int
        <= 127 by {
        assert(is_segment_char(key[8 + i]));
    }
    assert forall|i: int| 0 <= i < 36 implies (#[trigger] vessel_segment(key)[i]) as int <= 127 by {
        assert(is_segment_char(key[45 + i]));
    }
}

/// What an entry of an archive is for.
#[derive(Clone, Copy, Debug, PartialEq, Eq)]
pub enum EntryKind {
    /// A directory marker: nothing to read.
    Directory,
    /// The data file that holds the reports.
    Reports,
    /// A file that this pipeline has no use for.
    Unknown,
}

/// The name of the data file that holds the reports.
pub open spec fn reports_file() -> Seq<char> {
    "data/reports.json"@
}

pub open spec fn is_directory(filename: Seq<char>) -> bool {
    filename.len() > 0 && filename.last() == '/'
}

pub open spec fn kind_of(filename: Seq<char>) -> EntryKind {
    if is_directory(filename) {
        EntryKind::Directory
    } else if filename == reports_file() {
        EntryKind::Reports
    } else {
        EntryKind::Unknown
    }
}

/// Tells from the path of an entry whether its payload is to be read.
pub fn entry_kind(filename: &str) -> (kind: EntryKind)
    ensures
        kind == kind_of(filename@),
{
    let v = chars_of(filename);
    if v.len() > 0 && v[v.len() - 1] == '/' {
        EntryKind::Directory
    } else if filename.eq("data/reports.json") {
        EntryKind::Reports
    } else {
        EntryKind::Unknown
    }
}

} // verus!

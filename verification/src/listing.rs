//! Remote directory listings: each entry's kind and permission bits, and
//! the order shown to the user (directories first, then by name ignoring
//! case, ties kept in the server's order), and the local name of a file
//! opened for editing.
use vstd::prelude::*;
use crate::model::SftpEntry;
use crate::text::owned;

verus! {

/// The kind shown for a file type.
pub open spec fn kind_text(is_dir: bool, is_file: bool, is_symlink: bool) -> Seq<char> {
    if is_dir {
        "dir"@
    } else if is_file {
        "file"@
    } else if is_symlink {
        "symlink"@
    } else {
        "other"@
    }
}

/// The kind of an entry: `dir`, `file`, `symlink` or `other`.
pub fn kind_str(is_dir: bool, is_file: bool, is_symlink: bool) -> (r: &'static str)
    ensures
        r@ == kind_text(is_dir, is_file, is_symlink),
{
    if is_dir {
        "dir"
    } else if is_file {
        "file"
    } else if is_symlink {
        "symlink"
    } else {
        "other"
    }
}

/// The permission bits of a mode (`mode & 0o7777`).
pub fn permission_bits(mode: Option<u32>) -> (r: Option<u32>)
    ensures
        r == (match mode {
            Some(m) => Some(m & 0o7777u32),
            None => None,
        }),
{
    match mode {
        Some(m) => Some(m & 0o7777),
        None => None,
    }
}

/// What `str::to_lowercase` makes of `s` (Unicode lower case).
pub uninterp spec fn unicode_lower(s: Seq<char>) -> Seq<char>;

/// The Unicode lower case of `s`.
///
/// Trusted: `str::to_lowercase`; the result is named `unicode_lower`.
#[verifier::external_body]
fn to_lowercase(s: &str) -> (r: String)
    ensures
        r@ == unicode_lower(s@),
{
    s.to_lowercase()
}

/// Whether `a` sorts before `b` (code point order, as `String`'s `Ord`).
pub open spec fn text_lt(a: Seq<char>, b: Seq<char>) -> bool
    decreases a.len(),
{
    if b.len() == 0 {
        false
    } else if a.len() == 0 {
        true
    } else if a[0] != b[0] {
        a[0] < b[0]
    } else {
        text_lt(a.drop_first(), b.drop_first())
    }
}

pub(crate) fn text_lt_exec(a: &Vec<char>, b: &Vec<char>) -> (r: bool)
    ensures
        r == text_lt(a@, b@),
{
    let mut i: usize = 0;
    assert(a@.skip(0) =~= a@);
    assert(b@.skip(0) =~= b@);
    while i < a.len() && i < b.len() && a[i] == b[i]
        invariant
            i <= a@.len(),
            i <= b@.len(),
            text_lt(a@, b@) == text_lt(a@.skip(i as int), b@.skip(i as int)),
        decreases a.len() - i,
    {
        assert(a@.skip(i as int).drop_first() =~= a@.skip(i + 1));
        assert(b@.skip(i as int).drop_first() =~= b@.skip(i + 1));
        i = i + 1;
    }
    if i == b.len() {
        assert(b@.skip(i as int).len() == 0);
        return false;
    }
    if i == a.len() {
        assert(a@.skip(i as int).len() == 0);
        return true;
    }
    assert(a@.skip(i as int)[0] == a@[i as int]);
    assert(b@.skip(i as int)[0] == b@[i as int]);
    a[i] < b[i]
}

/// The sort key of an entry: not a directory (directories first), then the
/// lower-cased name.
pub struct EntryKey {
    pub not_dir: bool,
    pub name: Seq<char>,
}

/// The key of an entry.
pub open spec fn entry_key(e: SftpEntry) -> EntryKey {
    EntryKey { not_dir: e.kind@ != "dir"@, name: unicode_lower(e.name@) }
}

/// Whether key `a` sorts strictly before key `b`.
pub open spec fn key_lt(a: EntryKey, b: EntryKey) -> bool {
    (!a.not_dir && b.not_dir) || (a.not_dir == b.not_dir && text_lt(a.name, b.name))
}

/// Inserts `x` after every entry that does not sort after it.
pub open spec fn insert_entry(sorted: Seq<SftpEntry>, x: SftpEntry) -> Seq<SftpEntry>
    decreases sorted.len(),
{
    if sorted.len() == 0 {
        seq![x]
    } else if !key_lt(entry_key(x), entry_key(sorted.last())) {
        sorted.push(x)
    } else {
        insert_entry(sorted.drop_last(), x).push(sorted.last())
    }
}

/// The listing in display order (a stable sort by key).
pub open spec fn sorted_entries(es: Seq<SftpEntry>) -> Seq<SftpEntry>
    decreases es.len(),
{
    if es.len() == 0 {
        Seq::empty()
    } else {
        insert_entry(sorted_entries(es.drop_last()), es.last())
    }
}

proof fn lemma_insert_entry_at(sorted: Seq<SftpEntry>, x: SftpEntry, k: int)
    requires
        0 <= k <= sorted.len(),
        forall|j: int| k <= j < sorted.len() ==> key_lt(entry_key(x), entry_key(#[trigger] sorted[j])),
        k == 0 || !key_lt(entry_key(x), entry_key(sorted[k - 1])),
    ensures
        insert_entry(sorted, x) == sorted.insert(k, x),
    decreases sorted.len(),
{
    if sorted.len() == 0 {
        assert(sorted.insert(k, x) =~= seq![x]);
    } else if k == sorted.len() {
        assert(sorted.insert(k, x) =~= sorted.push(x));
    } else {
        let d = sorted.drop_last();
        assert forall|j: int| k <= j < d.len() implies key_lt(entry_key(x), entry_key(#[trigger] d[j])) by {
            assert(d[j] == sorted[j]);
        }
        lemma_insert_entry_at(d, x, k);
        assert(d.insert(k, x).push(sorted.last()) =~= sorted.insert(k, x));
    }
}

/// The listing in display order: directories first, then by lower-cased
/// name; entries with equal keys keep the server's order.
pub fn sort_entries(entries: Vec<SftpEntry>) -> (r: Vec<SftpEntry>)
    ensures
        r@ == sorted_entries(entries@),
{
    let mut sorted: Vec<SftpEntry> = Vec::new();
    let mut keys: Vec<(bool, Vec<char>)> = Vec::new();
    let mut rest = entries;
    let ghost es = rest@;
    let mut q: usize = 0;
    let n = rest.len();
    assert(es.take(0) =~= Seq::<SftpEntry>::empty());
    assert(es.skip(0) =~= es);
    while q < n
        invariant
            n == es.len(),
            q <= n,
            rest@ == es.skip(q as int),
            sorted@ == sorted_entries(es.take(q as int)),
            keys@.len() == sorted@.len(),
            forall|j: int|
                0 <= j < keys@.len() ==> (#[trigger] keys@[j]).0 == entry_key(sorted@[j]).not_dir && keys@[j].1@
                    == entry_key(sorted@[j]).name,
        decreases n - q,
    {
        let x = rest.remove(0);
        assert(x == es[q as int]);
        assert(rest@ =~= es.skip(q + 1));
        assert(es.take(q + 1).drop_last() =~= es.take(q as int));
        assert(es.take(q + 1).last() == x);
        let x_not_dir = !crate::text::str_is(x.kind.as_str(), "dir");
        let x_name = crate::text::to_chars(to_lowercase(x.name.as_str()).as_str());
        let ghost xk = entry_key(x);
        let ghost before = sorted@;
        let ghost kb = keys@;
        let mut k = sorted.len();
        while k > 0 && ((!x_not_dir && keys[k - 1].0) || (x_not_dir == keys[k - 1].0 && text_lt_exec(&x_name, &keys[k - 1].1)))
            invariant
                k <= sorted@.len(),
                sorted@ == before,
                keys@ == kb,
                keys@.len() == sorted@.len(),
                x_not_dir == xk.not_dir,
                x_name@ == xk.name,
                forall|j: int|
                    0 <= j < keys@.len() ==> (#[trigger] keys@[j]).0 == entry_key(sorted@[j]).not_dir && keys@[j].1@
                        == entry_key(sorted@[j]).name,
                forall|j: int| k <= j < sorted@.len() ==> key_lt(xk, entry_key(#[trigger] sorted@[j])),
            decreases k,
        {
            assert(keys@[k - 1].0 == entry_key(sorted@[k - 1]).not_dir);
            k = k - 1;
        }
        proof {
            if k > 0 {
                assert(keys@[k - 1].0 == entry_key(sorted@[k - 1]).not_dir);
            }
            lemma_insert_entry_at(before, x, k as int);
        }
        sorted.insert(k, x);
        keys.insert(k, (x_not_dir, x_name));
        assert forall|j: int|
            0 <= j < keys@.len() implies (#[trigger] keys@[j]).0 == entry_key(sorted@[j]).not_dir && keys@[j].1@
                == entry_key(sorted@[j]).name by {
            if j < k {
                assert(keys@[j] == kb[j] && sorted@[j] == before[j]);
            } else if j > k {
                assert(keys@[j] == kb[j - 1] && sorted@[j] == before[j - 1]);
            }
        }
        q = q + 1;
    }
    assert(es.take(n as int) =~= es);
    sorted
}

/// No directory after a non-directory.
pub open spec fn dirs_first(es: Seq<SftpEntry>) -> bool {
    forall|i: int, j: int|
        0 <= i < j < es.len() && (#[trigger] entry_key(es[i])).not_dir ==> (#[trigger] entry_key(es[j])).not_dir
}

proof fn lemma_insert_dirs_first(sorted: Seq<SftpEntry>, x: SftpEntry)
    requires
        dirs_first(sorted),
    ensures
        dirs_first(insert_entry(sorted, x)),
        insert_entry(sorted, x).len() == sorted.len() + 1,
        forall|j: int|
            0 <= j < insert_entry(sorted, x).len() ==> (#[trigger] insert_entry(sorted, x)[j] == x || sorted.contains(
                insert_entry(sorted, x)[j],
            )),
    decreases sorted.len(),
{
    if sorted.len() == 0 {
    } else if !key_lt(entry_key(x), entry_key(sorted.last())) {
        let r = sorted.push(x);
        assert forall|i: int, j: int| 0 <= i < j < r.len() && (#[trigger] entry_key(r[i])).not_dir implies (
        #[trigger] entry_key(r[j])).not_dir by {
            if j == sorted.len() {
                if i < sorted.len() - 1 {
                    assert(entry_key(sorted[sorted.len() - 1]).not_dir);
                }
            }
        }
        assert forall|j: int| 0 <= j < r.len() implies (#[trigger] r[j] == x || sorted.contains(r[j])) by {
            if j < sorted.len() {
                assert(r[j] == sorted[j]);
            }
        }
    } else {
        let d = sorted.drop_last();
        assert(dirs_first(d)) by {
            assert forall|i: int, j: int| 0 <= i < j < d.len() && (#[trigger] entry_key(d[i])).not_dir implies (
            #[trigger] entry_key(d[j])).not_dir by {
                assert(d[i] == sorted[i] && d[j] == sorted[j]);
            }
        }
        lemma_insert_dirs_first(d, x);
        let m = insert_entry(d, x);
        let r = m.push(sorted.last());
        assert forall|j: int| 0 <= j < r.len() implies (#[trigger] r[j] == x || sorted.contains(r[j])) by {
            if j < m.len() {
                if m[j] != x {
                    assert(d.contains(m[j]));
                    let q = choose|q: int| 0 <= q < d.len() && d[q] == m[j];
                    assert(sorted[q] == d[q]);
                }
            } else {
                assert(sorted[sorted.len() - 1] == sorted.last());
            }
        }
        assert forall|i: int, j: int| 0 <= i < j < r.len() && (#[trigger] entry_key(r[i])).not_dir implies (
        #[trigger] entry_key(r[j])).not_dir by {
            if j == m.len() {
                assert(r[i] == m[i]);
                if m[i] == x {
                } else {
                    assert(d.contains(m[i]));
                    let q = choose|q: int| 0 <= q < d.len() && d[q] == m[i];
                    assert(sorted[q] == m[i]);
                    assert(q < sorted.len() - 1);
                }
            } else {
                assert(r[i] == m[i] && r[j] == m[j]);
            }
        }
    }
}

/// Directories come first in a listing: in display order, no directory
/// follows a non-directory.
pub proof fn lemma_dirs_listed_first(es: Seq<SftpEntry>)
    ensures
        dirs_first(sorted_entries(es)),
        sorted_entries(es).len() == es.len(),
    decreases es.len(),
{
    if es.len() > 0 {
        lemma_dirs_listed_first(es.drop_last());
        lemma_insert_dirs_first(sorted_entries(es.drop_last()), es.last());
    }
}

/// Index of the last `/` or `\` in `s` before `end`, if any.
pub open spec fn last_sep(s: Seq<char>, end: int) -> Option<int>
    decreases end,
{
    if end <= 0 {
        None
    } else if s[end - 1] == '/' || s[end - 1] == '\\' {
        Some(end - 1)
    } else {
        last_sep(s, end - 1)
    }
}

/// The last component of a remote path.
pub open spec fn last_component(s: Seq<char>) -> Seq<char> {
    match last_sep(s, s.len() as int) {
        Some(i) => s.skip(i + 1),
        None => s,
    }
}

/// The local file name of a remote file opened for editing: the path's last
/// component (after `/` or `\`), or `remote-file` when that is empty.
pub fn edit_file_name(remote_path: &str) -> (r: String)
    ensures
        r@ == (if last_component(remote_path@).len() == 0 {
            "remote-file"@
        } else {
            last_component(remote_path@)
        }),
{
    let c = crate::text::to_chars(remote_path);
    let n = c.len();
    let mut k: usize = n;
    while k > 0 && c[k - 1] != '/' && c[k - 1] != '\\'
        invariant
            k <= n,
            n == c@.len(),
            c@ == remote_path@,
            last_sep(c@, n as int) == last_sep(c@, k as int),
        decreases k,
    {
        k = k - 1;
    }
    proof {
        if k > 0 {
            assert(last_sep(c@, k as int) == Some(k - 1));
            assert(c@.skip(k as int) =~= c@.subrange(k as int, n as int));
        } else {
            assert(last_sep(c@, 0) is None);
            assert(c@ =~= c@.subrange(0, n as int));
        }
    }
    if k == n {
        return owned("remote-file");
    }
    crate::text::string_from_range(&c, k, n)
}

} // verus!

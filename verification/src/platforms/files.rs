//! Inbound platform files: where a file's download URL comes from, the
//! storage quota of the inbound file directory, the streaming size cap,
//! and the names tried when a name is taken.
//!
//! Directory listings, downloads and file creation are the host's.

use vstd::prelude::*;
use crate::path::{file_name, file_name_of, last_dot_before, name_extension, piece, scan_pieces};
use crate::platforms::onebot::{is_path_sep, sanitize_file_name_spec, sanitized_file_names_stay_in_place};
use crate::platforms::onebot::Target;
use crate::text::{chars_of, decimal, digit_char, push_all, push_range, push_str, string_of, u64_decimal};

verus! {

/// Bytes reserved for the file about to be downloaded.
pub const MAX_INBOUND_FILE_BYTES: u64 = 52428800;

/// Bytes the inbound file directory may hold.
pub const PLATFORM_FILE_STORAGE_BYTES: u64 = 1073741824;

/// Files the inbound file directory may hold.
pub const PLATFORM_FILE_STORAGE_ENTRIES: usize = 4096;

/// Highest counter tried when a file name is taken.
pub const MAX_NAME_COUNTER: u32 = 1000;

/// Where an inbound file's download URL comes from.
pub enum FileUrlSource {
    /// The message carried the URL.
    Direct(String),
    /// Ask the platform: `action` with `file_id`, and for a group its id.
    Lookup { action: &'static str, file_id: String, group_id: Option<i64> },
    /// Neither a URL nor a file id.
    Missing,
}

/// The URL of an inbound file: the message's own, else a lookup by its
/// file id in the group or private chat.
pub fn file_url_source(url: Option<String>, file_id: Option<String>, target: Target) -> (r:
    FileUrlSource)
    ensures
        match url {
            Some(u) => r matches FileUrlSource::Direct(d) && d@ == u@,
            None => match file_id {
                None => r is Missing,
                Some(id) => match target {
                    Target::Group { group_id } => r matches FileUrlSource::Lookup { action, file_id: f, group_id: g }
                        && action@ == "get_group_file_url"@ && f@ == id@ && g == Some(group_id),
                    Target::Private { .. } => r matches FileUrlSource::Lookup { action, file_id: f, group_id: g }
                        && action@ == "get_private_file_url"@ && f@ == id@ && g is None,
                },
            },
        },
{
    match url {
        Some(u) => FileUrlSource::Direct(u),
        None => match file_id {
            None => FileUrlSource::Missing,
            Some(id) => match target {
                Target::Group { group_id } => FileUrlSource::Lookup {
                    action: "get_group_file_url",
                    file_id: id,
                    group_id: Some(group_id),
                },
                Target::Private { .. } => FileUrlSource::Lookup {
                    action: "get_private_file_url",
                    file_id: id,
                    group_id: None,
                },
            },
        },
    }
}

/// An entry of the inbound file directory.
pub struct StoredEntry {
    pub is_file: bool,
    pub len: u64,
    /// Older than the retention period.
    pub expired: bool,
}

/// Why no more inbound files can be stored.
#[derive(PartialEq, Eq, Structural, Debug, Clone, Copy)]
pub enum StorageError {
    /// The sizes of the stored files overflow.
    Overflow,
    /// The directory is at its file count or byte quota.
    Full,
}

/// The directory scanned in order: expired files are removed, the others
/// counted; a size overflow stops the scan.
pub struct StorageScan {
    pub bytes: nat,
    pub count: nat,
    pub removed: Seq<int>,
    pub overflowed: bool,
}

pub open spec fn storage_scan(entries: Seq<StoredEntry>) -> StorageScan
    decreases entries.len(),
{
    if entries.len() == 0 {
        StorageScan { bytes: 0, count: 0, removed: Seq::empty(), overflowed: false }
    } else {
        let s = storage_scan(entries.drop_last());
        let e = entries.last();
        let k = entries.len() - 1;
        if s.overflowed || !e.is_file {
            s
        } else if e.expired {
            StorageScan { removed: s.removed.push(k), ..s }
        } else if s.bytes + e.len > u64::MAX {
            StorageScan { overflowed: true, ..s }
        } else {
            StorageScan { bytes: (s.bytes + e.len) as nat, count: s.count + 1, ..s }
        }
    }
}

/// The verdict on storing one more file of up to `reserve` bytes.
pub open spec fn storage_verdict(scan: StorageScan, reserve: u64, max_bytes: u64, max_entries: usize) -> Result<
    (),
    StorageError,
> {
    if scan.overflowed {
        Err(StorageError::Overflow)
    } else if scan.count >= max_entries || (if scan.bytes + reserve > u64::MAX {
        u64::MAX as nat
    } else {
        (scan.bytes + reserve) as nat
    }) > max_bytes {
        Err(StorageError::Full)
    } else {
        Ok(())
    }
}

/// Which expired files to remove (their positions) and whether one more
/// file fits.
pub fn storage_check(entries: &Vec<StoredEntry>, reserve: u64, max_bytes: u64, max_entries: usize) -> (r:
    (Vec<usize>, Result<(), StorageError>))
    ensures
        r.0@.map_values(|i: usize| i as int) == storage_scan(entries@).removed,
        r.1 == storage_verdict(storage_scan(entries@), reserve, max_bytes, max_entries),
{
    let n = entries.len();
    let mut bytes: u64 = 0;
    let mut count: usize = 0;
    let mut removed: Vec<usize> = Vec::new();
    let mut overflowed = false;
    let mut i: usize = 0;
    assert(entries@.take(0) =~= Seq::<StoredEntry>::empty());
    assert(removed@.map_values(|i: usize| i as int) =~= Seq::<int>::empty());
    while i < n
        invariant
            n == entries@.len(),
            i <= n,
            count <= i,
            ({
                let s = storage_scan(entries@.take(i as int));
                &&& s.bytes == bytes
                &&& s.count == count
                &&& s.overflowed == overflowed
                &&& s.removed == removed@.map_values(|i: usize| i as int)
            }),
        decreases n - i,
    {
        proof {
            let t = entries@.take(i as int + 1);
            assert(t.drop_last() =~= entries@.take(i as int));
            assert(t.last() == entries@[i as int]);
        }
        let e = &entries[i];
        if !overflowed && e.is_file {
            if e.expired {
                let ghost before = removed@.map_values(|i: usize| i as int);
                removed.push(i);
                assert(removed@.map_values(|i: usize| i as int) =~= before.push(i as int));
            } else if e.len > u64::MAX - bytes {
                overflowed = true;
            } else {
                bytes = bytes + e.len;
                count = count + 1;
            }
        }
        i = i + 1;
    }
    assert(entries@.take(n as int) =~= entries@);
    let verdict = if overflowed {
        Err(StorageError::Overflow)
    } else {
        let total = if bytes > u64::MAX - reserve {
            u64::MAX
        } else {
            bytes + reserve
        };
        if count >= max_entries || total > max_bytes {
            Err(StorageError::Full)
        } else {
            Ok(())
        }
    };
    (removed, verdict)
}

/// Why a download stopped.
#[derive(PartialEq, Eq, Structural, Debug, Clone, Copy)]
pub enum StreamError {
    /// The byte count overflowed.
    Overflow,
    /// More than the cap arrived.
    TooLarge,
}

/// The running total after a chunk of a capped download.
pub fn add_chunk(total: usize, chunk: usize, max_bytes: usize) -> (r: Result<usize, StreamError>)
    ensures
        r == if total + chunk > usize::MAX {
            Err::<usize, StreamError>(StreamError::Overflow)
        } else if total + chunk > max_bytes {
            Err::<usize, StreamError>(StreamError::TooLarge)
        } else {
            Ok::<usize, StreamError>((total + chunk) as usize)
        },
{
    if chunk > usize::MAX - total {
        Err(StreamError::Overflow)
    } else if total + chunk > max_bytes {
        Err(StreamError::TooLarge)
    } else {
        Ok(total + chunk)
    }
}

/// The stem of a file name: what precedes its extension, or the whole name.
pub open spec fn name_stem(name: Seq<char>) -> Seq<char> {
    let d = last_dot_before(name, name.len() as int);
    if d <= 0 {
        name
    } else {
        name.take(d)
    }
}

/// The name tried at `counter` for a (safe) file name: the name itself
/// first, then `stem-N.ext`, or `stem-N` without an extension.
pub open spec fn candidate_name_spec(safe: Seq<char>, counter: nat) -> Seq<char> {
    if counter == 0 {
        safe
    } else {
        let stem = match file_name_of(safe) {
            Some(n) => name_stem(n),
            None => "file"@,
        };
        let ext = match file_name_of(safe) {
            Some(n) => name_extension(n),
            None => None,
        };
        match ext {
            Some(e) => stem + seq!['-'] + decimal(counter) + seq!['.'] + e,
            None => stem + seq!['-'] + decimal(counter),
        }
    }
}

proof fn lemma_decimal_len(n: nat)
    ensures
        decimal(n).len() >= 1,
        n >= 10 ==> decimal(n).len() >= 2,
    decreases n,
{
    if n >= 10 {
        lemma_decimal_len(n / 10);
    }
}

proof fn lemma_digit_char_injective(a: nat, b: nat)
    requires
        a < 10,
        b < 10,
        digit_char(a) == digit_char(b),
    ensures
        a == b,
{
    assert(digit_char(a) as u32 == a + 48);
    assert(digit_char(b) as u32 == b + 48);
}

/// Different numbers are written differently.
proof fn lemma_decimal_injective(a: nat, b: nat)
    requires
        decimal(a) == decimal(b),
    ensures
        a == b,
    decreases a,
{
    lemma_decimal_len(a);
    lemma_decimal_len(b);
    if a < 10 && b < 10 {
        assert(decimal(a)[0] == digit_char(a));
        assert(decimal(b)[0] == digit_char(b));
        lemma_digit_char_injective(a, b);
    } else if a >= 10 && b >= 10 {
        let da = decimal(a);
        let db = decimal(b);
        assert(da.drop_last() =~= decimal(a / 10));
        assert(db.drop_last() =~= decimal(b / 10));
        assert(da.last() == digit_char(a % 10));
        assert(db.last() == digit_char(b % 10));
        lemma_digit_char_injective(a % 10, b % 10);
        lemma_decimal_injective(a / 10, b / 10);
    }
}

/// Retries with different counters (from one on) try different names, so a
/// name already taken is never tried twice.
pub proof fn retried_names_differ(safe: Seq<char>, a: nat, b: nat)
    requires
        a >= 1,
        b >= 1,
        a != b,
    ensures
        candidate_name_spec(safe, a) != candidate_name_spec(safe, b),
{
    let stem = match file_name_of(safe) {
        Some(n) => name_stem(n),
        None => "file"@,
    };
    let ext = match file_name_of(safe) {
        Some(n) => name_extension(n),
        None => None,
    };
    let p = stem + seq!['-'];
    let q = match ext {
        Some(e) => seq!['.'] + e,
        None => Seq::<char>::empty(),
    };
    let sa = candidate_name_spec(safe, a);
    let sb = candidate_name_spec(safe, b);
    assert(sa =~= p + decimal(a) + q);
    assert(sb =~= p + decimal(b) + q);
    if sa == sb {
        assert(decimal(a).len() == decimal(b).len());
        let lo = p.len() as int;
        let hi = lo + decimal(a).len();
        assert(sa.subrange(lo, hi) =~= decimal(a));
        assert(sb.subrange(lo, hi) =~= decimal(b));
        lemma_decimal_injective(a, b);
    }
}

proof fn lemma_scan_without_slash(s: Seq<char>, start: int, i: int)
    requires
        0 <= start <= i <= s.len(),
        forall|k: int| 0 <= k < s.len() ==> s[k] != '/',
    ensures
        scan_pieces(s, start, i) == piece(s.subrange(start, s.len() as int)),
    decreases s.len() - i,
{
    if i < s.len() {
        lemma_scan_without_slash(s, start, i + 1);
    }
}

proof fn lemma_last_dot_range(s: Seq<char>, hi: int)
    requires
        0 <= hi <= s.len(),
    ensures
        -1 <= last_dot_before(s, hi) < hi,
    decreases hi,
{
    if hi > 0 && s[hi - 1] != '.' {
        lemma_last_dot_range(s, hi - 1);
    }
}

/// A name without slashes, other than `.` and `..`, is its own file name.
proof fn lemma_plain_name_is_file_name(s: Seq<char>)
    requires
        s.len() > 0,
        s != seq!['.'],
        s != seq!['.', '.'],
        forall|k: int| 0 <= k < s.len() ==> s[k] != '/',
    ensures
        file_name_of(s) == Some(s),
{
    lemma_scan_without_slash(s, 0, 0);
    assert(s.subrange(0, s.len() as int) =~= s);
    assert(s[0] != '/');
    if s[0] == '.' && s.len() == 1 {
        assert(s =~= seq!['.']);
    }
    if s.len() > 1 {
        assert(s[1] != '/');
    }
    assert(piece(s) == seq![s]);
    assert(crate::path::components(s) == seq![s]);
}

/// Every name tried for a stored file differs from every other one tried:
/// the sanitized name first, then its numbered variants.
pub proof fn tried_names_differ(name: Seq<char>, a: nat, b: nat)
    requires
        a != b,
    ensures
        candidate_name_spec(sanitize_file_name_spec(name), a) != candidate_name_spec(
            sanitize_file_name_spec(name),
            b,
        ),
{
    let safe = sanitize_file_name_spec(name);
    sanitized_file_names_stay_in_place(name);
    reveal_strlit(".");
    reveal_strlit("..");
    if a >= 1 && b >= 1 {
        retried_names_differ(safe, a, b);
    } else {
        let k = if a == 0 {
            b
        } else {
            a
        };
        assert forall|i: int| 0 <= i < safe.len() implies safe[i] != '/' by {
            assert(!is_path_sep(safe[i]));
        }
        assert("."@ =~= seq!['.']);
        assert(".."@ =~= seq!['.', '.']);
        lemma_plain_name_is_file_name(safe);
        lemma_last_dot_range(safe, safe.len() as int);
        lemma_decimal_len(k);
        let d = last_dot_before(safe, safe.len() as int);
        assert(candidate_name_spec(safe, k).len() > safe.len());
    }
}

fn dot_end(v: &Vec<char>) -> (hi: usize)
    ensures
        hi as int == last_dot_before(v@, v@.len() as int) + 1,
        hi <= v@.len(),
{
    let mut hi = v.len();
    while hi > 0 && v[hi - 1] != '.'
        invariant
            hi <= v@.len(),
            last_dot_before(v@, hi as int) == last_dot_before(v@, v@.len() as int),
        decreases hi,
    {
        hi = hi - 1;
    }
    hi
}

/// The file name tried at `counter`.
pub fn candidate_name(safe: &str, counter: u32) -> (r: String)
    ensures
        r@ == candidate_name_spec(safe@, counter as nat),
{
    if counter == 0 {
        return string_of(&chars_of(safe));
    }
    let mut out: Vec<char> = Vec::new();
    let mut ext: Option<Vec<char>> = None;
    match file_name(safe) {
        Some(n) => {
            let hi = dot_end(&n);
            if hi <= 1 {
                push_all(&mut out, &n);
            } else {
                push_range(&mut out, &n, 0, hi - 1);
                let mut e: Vec<char> = Vec::new();
                push_range(&mut e, &n, hi, n.len());
                ext = Some(e);
                assert(n@.take(hi as int - 1) =~= n@.subrange(0, hi as int - 1));
            }
        },
        None => push_str(&mut out, "file"),
    }
    out.push('-');
    let d = u64_decimal(counter as u64);
    push_all(&mut out, &d);
    match ext {
        Some(e) => {
            out.push('.');
            push_all(&mut out, &e);
        },
        None => {},
    }
    string_of(&out)
}

} // verus!

//! Extraction layout of a release archive: which entries are kept, where each
//! one lands below the destination, and whether it is a directory or a file.
//! Reading the archive goes through the `zip` crate.

use vstd::prelude::*;

verus! {

#[verifier::external_type_specification]
#[verifier::external_body]
#[verifier::reject_recursive_types(R)]
pub struct ExZipArchive<R>(zip::read::ZipArchive<R>);

#[verifier::external_type_specification]
#[verifier::external_body]
pub struct ExZipError(zip::result::ZipError);

#[verifier::external_type_specification]
#[verifier::external_body]
pub struct ExZipFile<'a>(zip::read::ZipFile<'a>);

#[verifier::external_type_specification]
#[verifier::external_body]
#[verifier::reject_recursive_types(T)]
pub struct ExCursor<T>(std::io::Cursor<T>);

/// Failures while reading an archive.
#[derive(Debug, Clone, Copy, PartialEq, Eq, Structural)]
pub enum ExtractError {
    /// The bytes are not a readable zip container.
    ArchiveOpen,
    /// An entry could not be read or decompressed.
    Io,
}

/// One entry of an archive, as read from it.
pub struct ArchiveEntry {
    /// The name as stored in the archive.
    pub raw_name: String,
    /// The stored name made relative, with parent-directory and
    /// current-directory parts dropped, its components joined by `/`.
    pub path: String,
    /// The entry's uncompressed content.
    pub data: Vec<u8>,
}

/// What extraction does with one kept entry: the entry's index in the
/// archive, its path relative to the destination, and whether it is a
/// directory to create or a file to write.
pub struct ExtractStep {
    pub index: usize,
    pub path: String,
    pub is_dir: bool,
}

/// A name denotes a directory when it ends with a separator.
pub open spec fn is_dir_name(name: Seq<char>) -> bool {
    name.len() > 0 && name.last() == '/'
}

/// The path below the archive root, when the path lies under it: the root
/// itself gives the empty path, `root/rest` gives `rest`, anything else none.
pub open spec fn strip_root_spec(path: Seq<char>, root: Seq<char>) -> Option<Seq<char>> {
    if path == root {
        Some(seq![])
    } else if path.len() > root.len() && path.subrange(0, root.len() as int) == root && path[root.len() as int]
        == '/' {
        Some(path.subrange(root.len() as int + 1, path.len() as int))
    } else {
        None
    }
}

/// The step for the entry at `index`, if it is kept.
pub open spec fn entry_step(index: int, e: ArchiveEntry, root: Seq<char>) -> Option<
    (int, Seq<char>, bool),
> {
    match strip_root_spec(e.path@, root) {
        Some(rel) => Some((index, rel, is_dir_name(e.raw_name@))),
        None => None,
    }
}

/// The steps for a list of entries, in archive order, skipping every entry
/// outside the root.
pub open spec fn plan_spec(es: Seq<ArchiveEntry>, root: Seq<char>) -> Seq<(int, Seq<char>, bool)>
    decreases es.len(),
{
    if es.len() == 0 {
        seq![]
    } else {
        let prev = plan_spec(es.drop_last(), root);
        match entry_step(es.len() - 1, es.last(), root) {
            Some(s) => prev.push(s),
            None => prev,
        }
    }
}

pub open spec fn step_view(s: ExtractStep) -> (int, Seq<char>, bool) {
    (s.index as int, s.path@, s.is_dir)
}

/// `p[a..b]` is one part of a `/`-separated path.
pub open spec fn is_part(p: Seq<char>, a: int, b: int) -> bool {
    &&& 0 <= a <= b <= p.len()
    &&& (a == 0 || p[a - 1] == '/')
    &&& (b == p.len() || p[b] == '/')
    &&& forall|k: int| a <= k < b ==> #[trigger] p[k] != '/'
}

/// Every part of the path is a plain name: none is empty, `.` or `..`. Such
/// a path is relative and stays below the directory it is joined to.
pub open spec fn is_clean_relative(p: Seq<char>) -> bool {
    p.len() == 0 || forall|a: int, b: int|
        #![trigger is_part(p, a, b)]
        is_part(p, a, b) ==> p.subrange(a, b) != Seq::<char>::empty() && p.subrange(a, b) != "."@
            && p.subrange(a, b) != ".."@
}

/// What is left of a clean path once the archive root is stripped is clean.
pub proof fn lemma_strip_keeps_clean(p: Seq<char>, root: Seq<char>)
    requires
        is_clean_relative(p),
        strip_root_spec(p, root) is Some,
    ensures
        is_clean_relative(strip_root_spec(p, root)->Some_0),
{
    let q = strip_root_spec(p, root)->Some_0;
    if p != root && q.len() > 0 {
        let m = root.len() as int;
        assert(p.len() > 0);
        assert forall|a: int, b: int| #![trigger is_part(q, a, b)] is_part(q, a, b) implies q.subrange(a, b)
            != Seq::<char>::empty() && q.subrange(a, b) != "."@ && q.subrange(a, b) != ".."@ by {
            assert forall|k: int| a + m + 1 <= k < b + m + 1 implies #[trigger] p[k] != '/' by {
                assert(p[k] == q[k - m - 1]);
            }
            if a > 0 {
                assert(p[a + m] == q[a - 1]);
            }
            if b < q.len() {
                assert(p[b + m + 1] == q[b]);
            }
            assert(is_part(p, a + m + 1, b + m + 1));
            assert(p.subrange(a + m + 1, b + m + 1) =~= q.subrange(a, b));
        }
    }
}

/// Every step of a plan on entries with clean paths has a clean path: the
/// extraction never leaves the destination directory.
pub proof fn lemma_plan_stays_below(es: Seq<ArchiveEntry>, root: Seq<char>)
    requires
        forall|j: int| 0 <= j < es.len() ==> is_clean_relative(#[trigger] es[j].path@),
    ensures
        forall|j: int|
            0 <= j < plan_spec(es, root).len() ==> is_clean_relative(#[trigger] plan_spec(es, root)[j].1),
    decreases es.len(),
{
    if es.len() > 0 {
        let prev = es.drop_last();
        assert forall|j: int| 0 <= j < prev.len() implies is_clean_relative(#[trigger] prev[j].path@) by {
            assert(prev[j] == es[j]);
        }
        lemma_plan_stays_below(prev, root);
        let e = es.last();
        assert(is_clean_relative(es[es.len() - 1].path@));
        let pp = plan_spec(prev, root);
        let plan = plan_spec(es, root);
        if strip_root_spec(e.path@, root) is Some {
            lemma_strip_keeps_clean(e.path@, root);
            assert(plan == pp.push((es.len() - 1, strip_root_spec(e.path@, root)->Some_0, is_dir_name(e.raw_name@))));
            assert forall|j: int| 0 <= j < plan.len() implies is_clean_relative(#[trigger] plan[j].1) by {
                if j < pp.len() {
                    assert(plan[j] == pp[j]);
                }
            }
        } else {
            assert(plan == pp);
        }
    }
}

/// Strips the archive root from an entry path; `None` when the path does not
/// lie under the root.
pub fn strip_root(path: &str, root: &str) -> (r: Option<String>)
    ensures
        r.is_some() == strip_root_spec(path@, root@).is_some(),
        r.is_some() ==> r.unwrap()@ == strip_root_spec(path@, root@).unwrap(),
{
    let n = path.unicode_len();
    let m = root.unicode_len();
    if n < m {
        proof {
            assert(path@.len() != root@.len());
        }
        return None;
    }
    let head = path.substring_char(0, m);
    let same = crate::platform::str_eq(head, root);
    if !same {
        proof {
            assert(path@ != root@) by {
                if path@ == root@ {
                    assert(path@.subrange(0, m as int) =~= path@);
                }
            }
        }
        return None;
    }
    if n == m {
        proof {
            assert(path@ =~= root@) by {
                assert(path@.subrange(0, m as int) =~= path@);
            }
        }
        return Some(String::new());
    }
    if path.get_char(m) != '/' {
        return None;
    }
    let rest = path.substring_char(m + 1, n);
    Some(String::from_str(rest))
}

/// Decides what extraction does with one entry: `None` for an entry outside
/// the archive root, else where it goes and whether it is a directory.
pub fn plan_entry(index: usize, entry: &ArchiveEntry, root: &str) -> (r: Option<ExtractStep>)
    ensures
        r.is_some() == entry_step(index as int, *entry, root@).is_some(),
        r.is_some() ==> step_view(r.unwrap()) == entry_step(index as int, *entry, root@).unwrap(),
{
    match strip_root(entry.path.as_str(), root) {
        None => None,
        Some(rel) => {
            let raw = entry.raw_name.as_str();
            let k = raw.unicode_len();
            let is_dir = k > 0 && raw.get_char(k - 1) == '/';
            Some(ExtractStep { index, path: rel, is_dir })
        },
    }
}

/// Lays out the extraction of an archive's entries below the destination:
/// one step per entry under `root`, in archive order; entries outside the
/// root are skipped.
pub fn plan_entries(entries: &Vec<ArchiveEntry>, root: &str) -> (r: Vec<ExtractStep>)
    ensures
        r@.map_values(|s: ExtractStep| step_view(s)) == plan_spec(entries@, root@),
{
    let mut steps: Vec<ExtractStep> = Vec::new();
    let mut i: usize = 0;
    while i < entries.len()
        invariant
            i <= entries@.len(),
            steps@.map_values(|s: ExtractStep| step_view(s)) == plan_spec(
                entries@.subrange(0, i as int),
                root@,
            ),
        decreases entries@.len() - i,
    {
        proof {
            let es = entries@.subrange(0, i + 1);
            assert(es.drop_last() =~= entries@.subrange(0, i as int));
            assert(es.last() == entries@[i as int]);
        }
        let ghost before = steps@;
        match plan_entry(i, &entries[i], root) {
            Some(s) => {
                steps.push(s);
                proof {
                    assert(steps@.map_values(|s: ExtractStep| step_view(s)) =~= before.map_values(
                        |s: ExtractStep| step_view(s),
                    ).push(step_view(steps@.last())));
                }
            },
            None => {},
        }
        i += 1;
    }
    proof {
        assert(entries@.subrange(0, entries@.len() as int) =~= entries@);
    }
    steps
}


/// Whether `zip::read::ZipArchive::new` reads an archive from these bytes.
pub uninterp spec fn zip_opens(bytes: Seq<u8>) -> bool;

/// The bytes an opened archive reads from.
pub uninterp spec fn zip_source(a: zip::read::ZipArchive<std::io::Cursor<Vec<u8>>>) -> Seq<u8>;

/// The number of entries that the archive in these bytes lists.
pub uninterp spec fn zip_count(bytes: Seq<u8>) -> nat;

/// Whether the entry at `index` of the archive in these bytes can be opened.
pub uninterp spec fn zip_entry_opens(bytes: Seq<u8>, index: int) -> bool;

/// The archive bytes and the index that an opened entry comes from.
pub uninterp spec fn zip_file_origin(f: zip::read::ZipFile) -> (Seq<u8>, int);

/// The stored name of the entry at `index`.
pub uninterp spec fn zip_entry_name(bytes: Seq<u8>, index: int) -> Seq<char>;

/// The sanitized path of the entry at `index`, its components joined by `/`.
pub uninterp spec fn zip_entry_path(bytes: Seq<u8>, index: int) -> Seq<char>;

/// The uncompressed content of the entry at `index`, when it decompresses
/// and its checksum matches.
pub uninterp spec fn zip_entry_data(bytes: Seq<u8>, index: int) -> Option<Seq<u8>>;

/// Relies on `zip::read::ZipArchive::new` over an in-memory reader: it reads
/// the archive's central directory and fails when the bytes hold no zip.
#[verifier::external_body]
fn open_zip(bytes: Vec<u8>) -> (r: Result<
    zip::read::ZipArchive<std::io::Cursor<Vec<u8>>>,
    zip::result::ZipError,
>)
    ensures
        r is Ok <==> zip_opens(bytes@),
        r matches Ok(a) ==> zip_source(a) == bytes@,
{
    zip::read::ZipArchive::new(std::io::Cursor::new(bytes))
}

/// Relies on `zip::read::ZipArchive::len`: the number of entries.
#[verifier::external_body]
fn zip_len(a: &zip::read::ZipArchive<std::io::Cursor<Vec<u8>>>) -> (r: usize)
    ensures
        r == zip_count(zip_source(*a)),
{
    a.len()
}

/// Relies on `zip::read::ZipArchive::by_index_decrypt` with an empty
/// password, which is dropped for entries that are not encrypted: the entry
/// at `index`, open for reading, or `None` when it is missing, cannot be
/// decoded, or asks for a password.
#[verifier::external_body]
fn zip_by_index<'a>(
    a: &'a mut zip::read::ZipArchive<std::io::Cursor<Vec<u8>>>,
    index: usize,
) -> (r: Option<zip::read::ZipFile<'a>>)
    ensures
        zip_source(*final(a)) == zip_source(*old(a)),
        r is Some <==> zip_entry_opens(zip_source(*old(a)), index as int),
        r matches Some(f) ==> zip_file_origin(f) == (zip_source(*old(a)), index as int),
{
    match a.by_index_decrypt(index, b"") {
        Ok(Ok(f)) => Some(f),
        Ok(Err(_)) => None,
        Err(_) => None,
    }
}

/// Relies on `zip::read::ZipFile::name`: the name as stored in the archive.
#[verifier::external_body]
fn zip_file_name(f: &zip::read::ZipFile) -> (r: String)
    ensures
        r@ == zip_entry_name(zip_file_origin(*f).0, zip_file_origin(*f).1),
{
    f.name().to_string()
}

/// Relies on `zip::read::ZipFile::mangled_name`: the stored name made
/// relative, with its parent-directory and current-directory parts dropped;
/// its components are joined with `/` on every platform.
#[verifier::external_body]
fn zip_file_path(f: &zip::read::ZipFile) -> (r: String)
    ensures
        r@ == zip_entry_path(zip_file_origin(*f).0, zip_file_origin(*f).1),
        is_clean_relative(r@),
{
    let parts: Vec<String> = f
        .mangled_name()
        .components()
        .map(|c| c.as_os_str().to_string_lossy().into_owned())
        .collect();
    parts.join("/")
}

/// Relies on `std::io::Read::read_to_end` on a freshly opened zip entry: its
/// whole uncompressed content, or an error when it does not decompress or
/// its checksum does not match.
#[verifier::external_body]
fn zip_file_read(f: zip::read::ZipFile) -> (r: Option<Vec<u8>>)
    ensures
        r is Some <==> zip_entry_data(zip_file_origin(f).0, zip_file_origin(f).1) is Some,
        r matches Some(d) ==> d@ == zip_entry_data(zip_file_origin(f).0, zip_file_origin(f).1)->Some_0,
{
    let mut f = f;
    let mut data: Vec<u8> = Vec::new();
    match std::io::Read::read_to_end(&mut f, &mut data) {
        Ok(_) => Some(data),
        Err(_) => None,
    }
}

pub open spec fn entry_view(e: ArchiveEntry) -> (Seq<char>, Seq<char>, Seq<u8>) {
    (e.raw_name@, e.path@, e.data@)
}

/// The entry at `index` of the archive in these bytes, when it opens and
/// reads: its stored name, its path and its content.
pub open spec fn member_spec(bytes: Seq<u8>, index: int) -> Option<(Seq<char>, Seq<char>, Seq<u8>)> {
    if zip_entry_opens(bytes, index) && zip_entry_data(bytes, index) is Some {
        Some((zip_entry_name(bytes, index), zip_entry_path(bytes, index), zip_entry_data(bytes, index)->Some_0))
    } else {
        None
    }
}

/// What an archive holds: `ArchiveOpen` when the bytes are no zip, `Io` when
/// one of its entries cannot be read, else every entry in archive order.
pub open spec fn archive_spec(bytes: Seq<u8>) -> Result<Seq<(Seq<char>, Seq<char>, Seq<u8>)>, ExtractError> {
    if !zip_opens(bytes) {
        Err(ExtractError::ArchiveOpen)
    } else if forall|i: int| 0 <= i < zip_count(bytes) ==> #[trigger] member_spec(bytes, i) is Some {
        Ok(Seq::new(zip_count(bytes), |i: int| member_spec(bytes, i)->Some_0))
    } else {
        Err(ExtractError::Io)
    }
}

pub open spec fn entries_view(es: Seq<ArchiveEntry>) -> Seq<(Seq<char>, Seq<char>, Seq<u8>)> {
    es.map_values(|e: ArchiveEntry| entry_view(e))
}

/// Reads the entry at `index` with its stored name, path and content.
fn read_entry(
    a: &mut zip::read::ZipArchive<std::io::Cursor<Vec<u8>>>,
    index: usize,
) -> (r: Result<ArchiveEntry, ExtractError>)
    ensures
        zip_source(*final(a)) == zip_source(*old(a)),
        r is Ok <==> member_spec(zip_source(*old(a)), index as int) is Some,
        r matches Ok(e) ==> member_spec(zip_source(*old(a)), index as int) == Some(entry_view(e)),
        r matches Err(e) ==> e == ExtractError::Io,
        r matches Ok(e) ==> is_clean_relative(e.path@),
{
    let f = match zip_by_index(a, index) {
        Some(f) => f,
        None => return Err(ExtractError::Io),
    };
    let raw_name = zip_file_name(&f);
    let path = zip_file_path(&f);
    match zip_file_read(f) {
        Some(data) => Ok(ArchiveEntry { raw_name, path, data }),
        None => Err(ExtractError::Io),
    }
}

/// Reads every entry of a zip archive held in memory, in archive order.
/// Fails with `ArchiveOpen` when the bytes hold no archive and with `Io`
/// when an entry cannot be read; there is no partial result.
pub fn read_archive(bytes: Vec<u8>) -> (r: Result<Vec<ArchiveEntry>, ExtractError>)
    ensures
        r matches Ok(es) ==> archive_spec(bytes@) == Ok::<_, ExtractError>(entries_view(es@)),
        r matches Err(e) ==> archive_spec(bytes@) == Err::<Seq<(Seq<char>, Seq<char>, Seq<u8>)>, _>(e),
        r matches Ok(es) ==> forall|j: int| 0 <= j < es@.len() ==> is_clean_relative(#[trigger] es@[j].path@),
{
    let ghost src = bytes@;
    let mut archive = match open_zip(bytes) {
        Ok(a) => a,
        Err(_) => return Err(ExtractError::ArchiveOpen),
    };
    let n = zip_len(&archive);
    let mut entries: Vec<ArchiveEntry> = Vec::new();
    let mut i: usize = 0;
    while i < n
        invariant
            i <= n,
            n == zip_count(src),
            zip_opens(src),
            src == bytes@,
            zip_source(archive) == src,
            entries@.len() == i,
            forall|j: int| 0 <= j < i ==> member_spec(src, j) == Some(entry_view(#[trigger] entries@[j])),
            forall|j: int| 0 <= j < i ==> is_clean_relative(#[trigger] entries@[j].path@),
        decreases n - i,
    {
        match read_entry(&mut archive, i) {
            Ok(e) => entries.push(e),
            Err(e) => {
                proof {
                    assert(member_spec(src, i as int) is None);
                    assert(!(forall|k: int| 0 <= k < zip_count(src) ==> #[trigger] member_spec(src, k) is Some));
                    assert(e == ExtractError::Io);
                    assert(archive_spec(src) == Err::<Seq<(Seq<char>, Seq<char>, Seq<u8>)>, ExtractError>(ExtractError::Io));
                }
                return Err(e);
            },
        }
        i += 1;
    }
    proof {
        assert forall|j: int| 0 <= j < zip_count(src) implies #[trigger] member_spec(src, j) is Some by {
            assert(member_spec(src, j) == Some(entry_view(entries@[j])));
        }
        assert(entries_view(entries@) =~= Seq::new(zip_count(src), |k: int| member_spec(src, k)->Some_0));
    }
    Ok(entries)
}

/// Reads an archive and lays out its extraction below the destination for
/// the given root: the entries read, and the steps of `plan_entries` on them.
pub fn extract_plan(bytes: Vec<u8>, root: &str) -> (r: Result<
    (Vec<ArchiveEntry>, Vec<ExtractStep>),
    ExtractError,
>)
    ensures
        r matches Ok((es, steps)) ==> archive_spec(bytes@) == Ok::<_, ExtractError>(entries_view(es@))
            && steps@.map_values(|s: ExtractStep| step_view(s)) == plan_spec(es@, root@),
        r matches Ok((es, steps)) ==> forall|j: int|
            0 <= j < steps@.len() ==> is_clean_relative(#[trigger] steps@[j].path@),
        r matches Err(e) ==> archive_spec(bytes@) == Err::<Seq<(Seq<char>, Seq<char>, Seq<u8>)>, _>(e),
{
    let entries = read_archive(bytes)?;
    let steps = plan_entries(&entries, root);
    proof {
        lemma_plan_stays_below(entries@, root@);
        assert forall|j: int| 0 <= j < steps@.len() implies is_clean_relative(#[trigger] steps@[j].path@) by {
            assert(steps@.map_values(|s: ExtractStep| step_view(s))[j] == step_view(steps@[j]));
            assert(plan_spec(entries@, root@)[j].1 == steps@[j].path@);
        }
    }
    Ok((entries, steps))
}

} // verus!

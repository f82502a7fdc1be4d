//! Picking the llama.cpp server and its shared libraries out of a downloaded runtime archive
//! (ZIP or gzip-compressed tar).

use vstd::prelude::*;

use crate::local_models::{
    extract_wanted, should_extract_runtime_file, zip_member_base, zip_member_base_name,
};
use crate::text::{chars_eq, chars_of, owned, push_str};

verus! {

/// A file to write into the runtime folder.
pub struct RuntimeFile {
    /// Its base name.
    pub name: String,
    pub data: Vec<u8>,
    /// Whether it is the server binary (made executable).
    pub executable: bool,
}

/// The value of a runtime file: name, bytes and whether it is executable.
pub open spec fn file_v(f: RuntimeFile) -> (Seq<char>, Seq<u8>, bool) {
    (f.name@, f.data@, f.executable)
}

/// The values of runtime files.
pub open spec fn files_v(fs: Seq<RuntimeFile>) -> Seq<(Seq<char>, Seq<u8>, bool)> {
    fs.map_values(|f: RuntimeFile| file_v(f))
}

/// What reading the members of an archive has given so far: the files to write, whether
/// the server binary was among them, and the error that stopped the reading.
pub struct ScanV {
    pub files: Seq<(Seq<char>, Seq<u8>, bool)>,
    pub found: bool,
    pub error: Option<Seq<char>>,
}

/// The scan after a member with base name `base` and contents `data`: a server binary or
/// shared library is kept (the server marked executable); anything else is passed over.
pub open spec fn scan_member(s: ScanV, base: Seq<char>, data: Seq<u8>, wanted: Seq<char>) -> ScanV {
    if extract_wanted(base, wanted) {
        ScanV {
            files: s.files.push((base, data, base == wanted)),
            found: s.found || base == wanted,
            error: None,
        }
    } else {
        s
    }
}

// ---------------------------------------------------------------------------
// ZIP archives
// ---------------------------------------------------------------------------

/// The number of members of the ZIP archive `bytes`, or the text of the error that opening
/// it gave (`zip::ZipArchive::new`, `ZipArchive::len`).
pub uninterp spec fn zip_member_count(bytes: Seq<u8>) -> Result<nat, Seq<char>>;

/// Member `i` of the ZIP archive `bytes`: its name, whether it is a folder, and its
/// contents; or the text of the error that reading it gave (`ZipArchive::by_index`,
/// `ZipFile::name`, `ZipFile::is_dir`, `Read::read_to_end`).
pub uninterp spec fn zip_member(bytes: Seq<u8>, i: nat) -> Result<(Seq<char>, bool, Seq<u8>), Seq<char>>;

/// Opens the ZIP archive and counts its members. The result is tied to `bytes` by the name
/// `zip_member_count`; what a valid archive is, and the error texts, are not stated.
#[verifier::external_body]
fn zip_count(bytes: &[u8]) -> (res: Result<usize, String>)
    ensures
        match res {
            Ok(n) => zip_member_count(bytes@) == Ok::<nat, Seq<char>>(n as nat),
            Err(e) => zip_member_count(bytes@) == Err::<nat, Seq<char>>(e@),
        },
{
    match zip::ZipArchive::new(std::io::Cursor::new(bytes)) {
        Ok(z) => Ok(z.len()),
        Err(e) => Err(e.to_string()),
    }
}

/// Reads member `i` of the ZIP archive. The result is tied to `bytes` and `i` by the name
/// `zip_member`; how members are decoded, and the error texts, are not stated.
#[verifier::external_body]
fn zip_member_at(bytes: &[u8], i: usize) -> (res: Result<(String, bool, Vec<u8>), String>)
    ensures
        match res {
            Ok((n, d, b)) => zip_member(bytes@, i as nat) == Ok::<
                (Seq<char>, bool, Seq<u8>),
                Seq<char>,
            >((n@, d, b@)),
            Err(e) => zip_member(bytes@, i as nat) == Err::<(Seq<char>, bool, Seq<u8>), Seq<char>>(
                e@,
            ),
        },
{
    let mut z = zip::ZipArchive::new(std::io::Cursor::new(bytes)).map_err(|e| e.to_string())?;
    let mut f = z.by_index(i).map_err(|e| e.to_string())?;
    let name = f.name().map_err(|e| e.to_string())?.into_owned();
    let mut data = Vec::new();
    std::io::Read::read_to_end(&mut f, &mut data).map_err(|e| e.to_string())?;
    Ok((name, f.is_dir(), data))
}

/// The scan of the first `n` members of a ZIP archive: folders are passed over, other
/// members are judged by the base of their name; the first unreadable member stops it.
pub open spec fn zip_scan(bytes: Seq<u8>, wanted: Seq<char>, n: nat) -> ScanV
    decreases n,
{
    if n == 0 {
        ScanV { files: Seq::empty(), found: false, error: None }
    } else {
        let s = zip_scan(bytes, wanted, (n - 1) as nat);
        if s.error is Some {
            s
        } else {
            match zip_member(bytes, (n - 1) as nat) {
                Err(e) => ScanV { files: s.files, found: s.found, error: Some(e) },
                Ok((name, is_dir, data)) => if is_dir {
                    s
                } else {
                    scan_member(s, zip_member_base(name), data, wanted)
                },
            }
        }
    }
}

/// What installing from a ZIP runtime archive writes, and its outcome: the files found
/// before any error; an error when the archive does not open, a member cannot be read, or
/// the server binary `wanted` is missing.
pub open spec fn zip_install(bytes: Seq<u8>, wanted: Seq<char>) -> (
    Seq<(Seq<char>, Seq<u8>, bool)>,
    Result<(), Seq<char>>,
) {
    match zip_member_count(bytes) {
        Err(e) => (Seq::empty(), Err("runtime zip open failed: "@ + e)),
        Ok(n) => {
            let s = zip_scan(bytes, wanted, n);
            (
                s.files,
                match s.error {
                    Some(e) => Err(e),
                    None => if s.found {
                        Ok(())
                    } else {
                        Err("runtime zip does not contain "@ + wanted)
                    },
                },
            )
        },
    }
}

/// The runtime files of a ZIP archive and whether the install succeeds.
pub fn runtime_zip_files(bytes: &[u8], wanted: &str) -> (res: (Vec<RuntimeFile>, Result<(), String>))
    ensures
        files_v(res.0@) == zip_install(bytes@, wanted@).0,
        match res.1 {
            Ok(()) => zip_install(bytes@, wanted@).1 is Ok,
            Err(e) => zip_install(bytes@, wanted@).1 == Err::<(), Seq<char>>(e@),
        },
{
    let mut files: Vec<RuntimeFile> = Vec::new();
    let n = match zip_count(bytes) {
        Ok(n) => n,
        Err(e) => {
            let mut m = owned("runtime zip open failed: ");
            push_str(&mut m, e.as_str());
            assert(files_v(files@) =~= Seq::empty());
            return (files, Err(m));
        },
    };
    let mut found = false;
    let mut i: usize = 0;
    assert(files_v(files@) =~= Seq::empty());
    while i < n
        invariant
            i <= n,
            zip_member_count(bytes@) == Ok::<nat, Seq<char>>(n as nat),
            zip_scan(bytes@, wanted@, i as nat) == (ScanV {
                files: files_v(files@),
                found,
                error: None,
            }),
        decreases n - i,
    {
        match zip_member_at(bytes, i) {
            Err(e) => {
                assert(zip_scan(bytes@, wanted@, (i + 1) as nat).error == Some(e@));
                assert(zip_scan(bytes@, wanted@, n as nat) == zip_scan(
                    bytes@,
                    wanted@,
                    (i + 1) as nat,
                )) by {
                    lemma_zip_scan_stops(bytes@, wanted@, (i + 1) as nat, n as nat);
                }
                return (files, Err(e));
            },
            Ok((name, is_dir, data)) => {
                if !is_dir {
                    let base = zip_member_base_name(name.as_str());
                    if should_extract_runtime_file(base.as_str(), wanted) {
                        let exec = chars_eq(&chars_of(base.as_str()), &chars_of(wanted));
                        let ghost before = files_v(files@);
                        found = found || exec;
                        files.push(RuntimeFile { name: base, data, executable: exec });
                        assert(files_v(files@) =~= before.push((zip_member_base(name@), data@, exec)));
                    }
                }
            },
        }
        i = i + 1;
    }
    if found {
        (files, Ok(()))
    } else {
        let mut m = owned("runtime zip does not contain ");
        push_str(&mut m, wanted);
        (files, Err(m))
    }
}

proof fn lemma_zip_scan_stops(bytes: Seq<u8>, wanted: Seq<char>, k: nat, n: nat)
    requires
        k <= n,
        zip_scan(bytes, wanted, k).error is Some,
    ensures
        zip_scan(bytes, wanted, n) == zip_scan(bytes, wanted, k),
    decreases n - k,
{
    if k < n {
        lemma_zip_scan_stops(bytes, wanted, k, (n - 1) as nat);
    }
}

// ---------------------------------------------------------------------------
// Gzip-compressed tar archives
// ---------------------------------------------------------------------------

/// The number of entries of the gzip-compressed tar archive `bytes`, or the text of the
/// error that listing them gave (`flate2::read::GzDecoder`, `tar::Archive::entries`,
/// counting every item the iterator yields).
pub uninterp spec fn tgz_entry_count(bytes: Seq<u8>) -> Result<nat, Seq<char>>;

/// Entry `i` of the gzip-compressed tar archive `bytes`: whether it is a regular file, the
/// file name of its path when it has one in UTF-8, and its contents; or the text of the
/// error that reading it gave (`Entry::header`, `EntryType::is_file`, `Entry::path`,
/// `Path::file_name`, `Read::read_to_end`).
pub uninterp spec fn tgz_entry(bytes: Seq<u8>, i: nat) -> Result<(bool, Option<Seq<char>>, Seq<u8>), Seq<char>>;

/// Lists the entries of the archive. The result is tied to `bytes` by the name
/// `tgz_entry_count`; the archive format and the error texts are not stated.
#[verifier::external_body]
fn tgz_count(bytes: &[u8]) -> (res: Result<usize, String>)
    ensures
        match res {
            Ok(n) => tgz_entry_count(bytes@) == Ok::<nat, Seq<char>>(n as nat),
            Err(e) => tgz_entry_count(bytes@) == Err::<nat, Seq<char>>(e@),
        },
{
    let mut archive = tar::Archive::new(flate2::read::GzDecoder::new(bytes));
    match archive.entries() {
        Ok(entries) => Ok(entries.count()),
        Err(e) => Err(e.to_string()),
    }
}

/// Reads entry `i` of the archive. The result is tied to `bytes` and `i` by the name
/// `tgz_entry`; the archive format and the error texts are not stated.
#[verifier::external_body]
fn tgz_entry_at(bytes: &[u8], i: usize) -> (res: Result<(bool, Option<String>, Vec<u8>), String>)
    ensures
        match res {
            Ok((f, n, b)) => tgz_entry(bytes@, i as nat) == Ok::<
                (bool, Option<Seq<char>>, Seq<u8>),
                Seq<char>,
            >((f, crate::streaming::opt_view(n), b@)),
            Err(e) => tgz_entry(bytes@, i as nat) == Err::<
                (bool, Option<Seq<char>>, Seq<u8>),
                Seq<char>,
            >(e@),
        },
{
    let mut archive = tar::Archive::new(flate2::read::GzDecoder::new(bytes));
    let mut entries = archive.entries().map_err(|e| e.to_string())?;
    let mut entry = entries.nth(i).ok_or_else(String::new)?.map_err(|e| e.to_string())?;
    let is_file = entry.header().entry_type().is_file();
    let path = entry.path().map_err(|e| e.to_string())?;
    let name = path.file_name().and_then(|s| s.to_str()).map(str::to_owned);
    let mut data = Vec::new();
    std::io::Read::read_to_end(&mut entry, &mut data).map_err(|e| e.to_string())?;
    Ok((is_file, name, data))
}

/// The scan of the first `n` entries of a tar archive: entries that are not regular files,
/// or whose name is not UTF-8, are passed over; the first unreadable entry stops it.
pub open spec fn tgz_scan(bytes: Seq<u8>, wanted: Seq<char>, n: nat) -> ScanV
    decreases n,
{
    if n == 0 {
        ScanV { files: Seq::empty(), found: false, error: None }
    } else {
        let s = tgz_scan(bytes, wanted, (n - 1) as nat);
        if s.error is Some {
            s
        } else {
            match tgz_entry(bytes, (n - 1) as nat) {
                Err(e) => ScanV { files: s.files, found: s.found, error: Some(e) },
                Ok((is_file, name, data)) => if !is_file {
                    s
                } else {
                    match name {
                        None => s,
                        Some(base) => scan_member(s, base, data, wanted),
                    }
                },
            }
        }
    }
}

/// What installing from a gzip-compressed tar runtime archive writes, and its outcome.
pub open spec fn tgz_install(bytes: Seq<u8>, wanted: Seq<char>) -> (
    Seq<(Seq<char>, Seq<u8>, bool)>,
    Result<(), Seq<char>>,
) {
    match tgz_entry_count(bytes) {
        Err(e) => (Seq::empty(), Err("runtime tar open failed: "@ + e)),
        Ok(n) => {
            let s = tgz_scan(bytes, wanted, n);
            (
                s.files,
                match s.error {
                    Some(e) => Err(e),
                    None => if s.found {
                        Ok(())
                    } else {
                        Err("runtime tar.gz does not contain "@ + wanted)
                    },
                },
            )
        },
    }
}

proof fn lemma_tgz_scan_stops(bytes: Seq<u8>, wanted: Seq<char>, k: nat, n: nat)
    requires
        k <= n,
        tgz_scan(bytes, wanted, k).error is Some,
    ensures
        tgz_scan(bytes, wanted, n) == tgz_scan(bytes, wanted, k),
    decreases n - k,
{
    if k < n {
        lemma_tgz_scan_stops(bytes, wanted, k, (n - 1) as nat);
    }
}

/// The runtime files of a gzip-compressed tar archive and whether the install succeeds.
pub fn runtime_tgz_files(bytes: &[u8], wanted: &str) -> (res: (Vec<RuntimeFile>, Result<(), String>))
    ensures
        files_v(res.0@) == tgz_install(bytes@, wanted@).0,
        match res.1 {
            Ok(()) => tgz_install(bytes@, wanted@).1 is Ok,
            Err(e) => tgz_install(bytes@, wanted@).1 == Err::<(), Seq<char>>(e@),
        },
{
    let mut files: Vec<RuntimeFile> = Vec::new();
    let n = match tgz_count(bytes) {
        Ok(n) => n,
        Err(e) => {
            let mut m = owned("runtime tar open failed: ");
            push_str(&mut m, e.as_str());
            assert(files_v(files@) =~= Seq::empty());
            return (files, Err(m));
        },
    };
    let mut found = false;
    let mut i: usize = 0;
    assert(files_v(files@) =~= Seq::empty());
    while i < n
        invariant
            i <= n,
            tgz_entry_count(bytes@) == Ok::<nat, Seq<char>>(n as nat),
            tgz_scan(bytes@, wanted@, i as nat) == (ScanV {
                files: files_v(files@),
                found,
                error: None,
            }),
        decreases n - i,
    {
        match tgz_entry_at(bytes, i) {
            Err(e) => {
                assert(tgz_scan(bytes@, wanted@, (i + 1) as nat).error == Some(e@));
                assert(tgz_scan(bytes@, wanted@, n as nat) == tgz_scan(
                    bytes@,
                    wanted@,
                    (i + 1) as nat,
                )) by {
                    lemma_tgz_scan_stops(bytes@, wanted@, (i + 1) as nat, n as nat);
                }
                return (files, Err(e));
            },
            Ok((is_file, name, data)) => {
                if is_file {
                    match name {
                        Some(base) => {
                            if should_extract_runtime_file(base.as_str(), wanted) {
                                let exec = chars_eq(&chars_of(base.as_str()), &chars_of(wanted));
                                let ghost before = files_v(files@);
                                let ghost bv = base@;
                                found = found || exec;
                                files.push(RuntimeFile { name: base, data, executable: exec });
                                assert(files_v(files@) =~= before.push((bv, data@, exec)));
                            }
                        },
                        None => {},
                    }
                }
            },
        }
        i = i + 1;
    }
    if found {
        (files, Ok(()))
    } else {
        let mut m = owned("runtime tar.gz does not contain ");
        push_str(&mut m, wanted);
        (files, Err(m))
    }
}

/// The runtime files of a downloaded archive: a `.tar.gz` or `.tgz` URL names a
/// gzip-compressed tar archive, any other a ZIP archive.
pub fn runtime_archive_files(url: &str, bytes: &[u8], wanted: &str) -> (res: (
    Vec<RuntimeFile>,
    Result<(), String>,
))
    ensures
        ({
            let inst = if crate::local_models::is_tarball_url(url@) {
                tgz_install(bytes@, wanted@)
            } else {
                zip_install(bytes@, wanted@)
            };
            &&& files_v(res.0@) == inst.0
            &&& match res.1 {
                Ok(()) => inst.1 is Ok,
                Err(e) => inst.1 == Err::<(), Seq<char>>(e@),
            }
        }),
{
    if crate::local_models::archive_is_tarball(url) {
        runtime_tgz_files(bytes, wanted)
    } else {
        runtime_zip_files(bytes, wanted)
    }
}


/// What a scan keeps is sound: only the server binary is marked executable, and when the
/// scan found the server it kept it.
pub open spec fn scan_sound(s: ScanV, wanted: Seq<char>) -> bool {
    &&& forall|i: int| 0 <= i < s.files.len() ==> (#[trigger] s.files[i]).2 == (s.files[i].0 == wanted)
    &&& s.found ==> exists|i: int| 0 <= i < s.files.len() && (#[trigger] s.files[i]).0 == wanted
}

proof fn lemma_scan_member_sound(s: ScanV, base: Seq<char>, data: Seq<u8>, wanted: Seq<char>)
    requires
        scan_sound(s, wanted),
    ensures
        scan_sound(scan_member(s, base, data, wanted), wanted),
{
    let r = scan_member(s, base, data, wanted);
    if extract_wanted(base, wanted) {
        assert forall|i: int| 0 <= i < r.files.len() implies (#[trigger] r.files[i]).2 == (r.files[i].0
            == wanted) by {
            if i < s.files.len() {
                assert(r.files[i] == s.files[i]);
            }
        }
        if r.found {
            if base == wanted {
                assert(r.files[s.files.len() as int].0 == wanted);
            } else {
                let i = choose|i: int| 0 <= i < s.files.len() && (#[trigger] s.files[i]).0 == wanted;
                assert(r.files[i] == s.files[i]);
            }
        }
    }
}

proof fn lemma_zip_scan_sound(bytes: Seq<u8>, wanted: Seq<char>, n: nat)
    ensures
        scan_sound(zip_scan(bytes, wanted, n), wanted),
    decreases n,
{
    if n > 0 {
        lemma_zip_scan_sound(bytes, wanted, (n - 1) as nat);
        let s = zip_scan(bytes, wanted, (n - 1) as nat);
        let r = zip_scan(bytes, wanted, n);
        if s.error is None {
            match zip_member(bytes, (n - 1) as nat) {
                Err(e) => {
                    assert(r.files == s.files && r.found == s.found);
                },
                Ok(m) => {
                    if !m.1 {
                        lemma_scan_member_sound(s, zip_member_base(m.0), m.2, wanted);
                        assert(r == scan_member(s, zip_member_base(m.0), m.2, wanted));
                    } else {
                        assert(r == s);
                    }
                },
            }
        } else {
            assert(r == s);
        }
    }
}

proof fn lemma_tgz_scan_sound(bytes: Seq<u8>, wanted: Seq<char>, n: nat)
    ensures
        scan_sound(tgz_scan(bytes, wanted, n), wanted),
    decreases n,
{
    if n > 0 {
        lemma_tgz_scan_sound(bytes, wanted, (n - 1) as nat);
        let s = tgz_scan(bytes, wanted, (n - 1) as nat);
        let r = tgz_scan(bytes, wanted, n);
        if s.error is None {
            match tgz_entry(bytes, (n - 1) as nat) {
                Err(e) => {
                    assert(r.files == s.files && r.found == s.found);
                },
                Ok(m) => {
                    if m.0 {
                        match m.1 {
                            None => {
                                assert(r == s);
                            },
                            Some(base) => {
                                lemma_scan_member_sound(s, base, m.2, wanted);
                                assert(r == scan_member(s, base, m.2, wanted));
                            },
                        }
                    } else {
                        assert(r == s);
                    }
                },
            }
        } else {
            assert(r == s);
        }
    }
}

/// An install from a runtime archive that succeeds writes the server binary, and the only
/// file it marks executable is the server binary.
pub proof fn law_successful_install_has_the_server(bytes: Seq<u8>, wanted: Seq<char>)
    ensures
        ({
            let (files, outcome) = zip_install(bytes, wanted);
            &&& outcome is Ok ==> exists|i: int| 0 <= i < files.len() && (#[trigger] files[i]).0 == wanted && files[i].2
            &&& forall|i: int| 0 <= i < files.len() ==> (#[trigger] files[i]).2 == (files[i].0 == wanted)
        }),
        ({
            let (files, outcome) = tgz_install(bytes, wanted);
            &&& outcome is Ok ==> exists|i: int| 0 <= i < files.len() && (#[trigger] files[i]).0 == wanted && files[i].2
            &&& forall|i: int| 0 <= i < files.len() ==> (#[trigger] files[i]).2 == (files[i].0 == wanted)
        }),
{
    match zip_member_count(bytes) {
        Ok(n) => {
            lemma_zip_scan_sound(bytes, wanted, n);
            let sc = zip_scan(bytes, wanted, n);
            assert(zip_install(bytes, wanted).0 == sc.files);
            if zip_install(bytes, wanted).1 is Ok {
                assert(sc.found);
                let i = choose|i: int| 0 <= i < sc.files.len() && (#[trigger] sc.files[i]).0 == wanted;
                assert(sc.files[i].2);
            }
        },
        Err(_) => {},
    }
    match tgz_entry_count(bytes) {
        Ok(n) => {
            lemma_tgz_scan_sound(bytes, wanted, n);
            let sc = tgz_scan(bytes, wanted, n);
            assert(tgz_install(bytes, wanted).0 == sc.files);
            if tgz_install(bytes, wanted).1 is Ok {
                assert(sc.found);
                let i = choose|i: int| 0 <= i < sc.files.len() && (#[trigger] sc.files[i]).0 == wanted;
                assert(sc.files[i].2);
            }
        },
        Err(_) => {},
    }
}

} // verus!

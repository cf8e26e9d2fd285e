//! The extraction pass: runs every record of an archive through the rules
//! and accumulates the accepted entries in memory.

use vstd::prelude::*;
use std::io::Cursor;
use crate::filter::JarOption;
use crate::filter::accepts;
use crate::filter::str_bytes;
use crate::filter::lemma_empty_rules_accept_all;
use crate::filter::lemma_prefix_rule_accepts;
use crate::archive::ZipEntry;
use crate::archive::JarError;
use crate::archive::entries_of;
use crate::archive::parsed_entries;
use crate::archive::parse_ok;
use crate::archive::open_archive;
use crate::archive::archive_len;
use crate::archive::entry_meta;
use crate::archive::entry_bytes;

verus! {

/// The mapping that a list of stored files denotes: of two pairs with one
/// path, the later one wins.
pub open spec fn map_of(files: Seq<(String, Vec<u8>)>) -> Map<Seq<char>, Seq<u8>>
    decreases files.len(),
{
    if files.len() == 0 {
        Map::empty()
    } else {
        map_of(files.drop_last()).insert(files.last().0@, files.last().1@)
    }
}

/// No path occurs twice among the stored files.
pub open spec fn unique_paths(files: Seq<(String, Vec<u8>)>) -> bool {
    forall|i: int, j: int| 0 <= i < j < files.len() ==> files[i].0@ != files[j].0@
}

/// The in-memory result of an extraction: the accepted entries' bytes,
/// keyed by logical path.
pub struct Jar {
    /// Each accepted entry's path with its decompressed bytes; no path
    /// occurs twice.
    pub files: Vec<(String, Vec<u8>)>,
}

impl Jar {
    /// No path occurs twice among the extracted files.
    pub open spec fn wf(&self) -> bool {
        unique_paths(self.files@)
    }
}

impl View for Jar {
    type V = Map<Seq<char>, Seq<u8>>;

    open spec fn view(&self) -> Map<Seq<char>, Seq<u8>> {
        map_of(self.files@)
    }
}

/// The mapping that an extraction of these records under these rules
/// returns: directory records and unrepresentable paths are skipped
/// silently, a rejected path is skipped, and of two accepted records with
/// one path the later one wins.
pub open spec fn extracted_map(entries: Seq<ZipEntry>, opt: JarOption) -> Map<Seq<char>, Seq<u8>>
    decreases entries.len(),
{
    if entries.len() == 0 {
        Map::empty()
    } else {
        let m = extracted_map(entries.drop_last(), opt);
        let e = entries.last();
        if !e.is_dir && e.path is Some && accepts(opt, e.path->0) {
            m.insert(e.path->0, e.data)
        } else {
            m
        }
    }
}

/// Whether an extraction under these rules must read this record's bytes:
/// it is no directory, its path is representable, and the rules accept it.
pub open spec fn wants_data(e: ZipEntry, opt: JarOption) -> bool {
    !e.is_dir && e.path is Some && accepts(opt, e.path->0)
}

/// Whether an extraction of these records under these rules succeeds:
/// every record can be looked up, and the bytes of every record that the
/// rules make the extraction read decompress in full. Skipped records may
/// be corrupt without harm: their bytes are never touched.
pub open spec fn extraction_ok(entries: Seq<ZipEntry>, opt: JarOption) -> bool {
    forall|i: int|
        0 <= i < entries.len() ==> (#[trigger] entries[i]).meta_ok && (wants_data(
            entries[i],
            opt,
        ) ==> entries[i].read_ok)
}

/// Replacing the pair at a matching path rewrites exactly that key of the
/// denoted mapping.
proof fn lemma_map_of_update(files: Seq<(String, Vec<u8>)>, i: int, p: (String, Vec<u8>))
    requires
        unique_paths(files),
        0 <= i < files.len(),
        files[i].0@ == p.0@,
    ensures
        map_of(files.update(i, p)) == map_of(files).insert(p.0@, p.1@),
        unique_paths(files.update(i, p)),
    decreases files.len(),
{
    let u = files.update(i, p);
    if i == files.len() - 1 {
        assert(u.drop_last() =~= files.drop_last());
        assert(u.last() == p);
    } else {
        assert(u.drop_last() =~= files.drop_last().update(i, p));
        assert(files.drop_last()[i] == files[i]);
        lemma_map_of_update(files.drop_last(), i, p);
        assert(u.last() == files.last());
        assert(files[i].0@ != files.last().0@);
        assert(map_of(u) =~= map_of(files).insert(p.0@, p.1@));
    }
}

/// Appending a pair adds exactly its path to the denoted mapping.
proof fn lemma_map_of_push(files: Seq<(String, Vec<u8>)>, p: (String, Vec<u8>))
    ensures
        map_of(files.push(p)) == map_of(files).insert(p.0@, p.1@),
{
    assert(files.push(p).drop_last() =~= files);
    assert(files.push(p).last() == p);
}

/// Stores one extracted file: replaces the bytes of an equal path, else
/// appends the pair.
fn insert_file(files: &mut Vec<(String, Vec<u8>)>, path: String, data: Vec<u8>)
    requires
        unique_paths(old(files)@),
    ensures
        unique_paths(final(files)@),
        map_of(final(files)@) == map_of(old(files)@).insert(path@, data@),
{
    let n = files.len();
    let mut i: usize = 0;
    while i < n
        invariant
            files@ == old(files)@,
            unique_paths(files@),
            n == files@.len(),
            0 <= i <= n,
            forall|j: int| 0 <= j < i ==> files@[j].0@ != path@,
        decreases n - i,
    {
        if files[i].0 == path {
            proof {
                lemma_map_of_update(files@, i as int, (files@[i as int].0, data));
            }
            files[i].1 = data;
            return;
        }
        i += 1;
    }
    let ghost before = files@;
    let ghost pathv = path@;
    files.push((path, data));
    proof {
        lemma_map_of_push(before, files@.last());
        assert(forall|j: int| 0 <= j < before.len() ==> before[j].0@ != pathv);
        assert(unique_paths(files@));
    }
}

/// Runs every record of an already-open archive through the rules and
/// returns the accepted entries. It succeeds exactly when every record
/// can be looked up and every record the rules accept can be read in
/// full; skipped records are never read, and the first failure aborts the
/// whole extraction with no partial result.
pub fn extract_entries(a: &mut zip::ZipArchive<Cursor<Vec<u8>>>, option: &JarOption) -> (r:
    Result<Jar, JarError>)
    ensures
        entries_of(*final(a)) == entries_of(*old(a)),
        (r is Ok <==> extraction_ok(entries_of(*old(a)), *option)),
        (r matches Ok(j) ==> j.wf() && j@ == extracted_map(entries_of(*old(a)), *option)),
{
    let n = archive_len(a);
    let mut files: Vec<(String, Vec<u8>)> = Vec::new();
    proof {
        assert(extracted_map(entries_of(*a).take(0), *option) =~= Map::<Seq<char>, Seq<u8>>::empty());
        assert(map_of(files@) =~= Map::<Seq<char>, Seq<u8>>::empty());
    }
    let mut i: usize = 0;
    while i < n
        invariant
            entries_of(*a) == entries_of(*old(a)),
            n == entries_of(*a).len(),
            0 <= i <= n,
            unique_paths(files@),
            map_of(files@) == extracted_map(entries_of(*old(a)).take(i as int), *option),
            extraction_ok(entries_of(*old(a)).take(i as int), *option),
        decreases n - i,
    {
        let ghost entries = entries_of(*old(a));
        let meta = match entry_meta(a, i) {
            Ok(m) => m,
            Err(e) => {
                proof {
                    assert(!entries[i as int].meta_ok);
                    assert(!extraction_ok(entries, *option));
                }
                return Err(JarError::new(e));
            },
        };
        let (path_opt, is_dir) = meta;
        match path_opt {
            None => {},
            Some(path) => {
                if !is_dir {
                    if option.target_match(path.as_str()) || option.ext_match(path.as_str()) {
                        let data = match entry_bytes(a, i) {
                            Ok(d) => d,
                            Err(e) => {
                                proof {
                                    assert(wants_data(entries[i as int], *option));
                                    assert(!entries[i as int].read_ok);
                                    assert(!extraction_ok(entries, *option));
                                }
                                return Err(JarError::new(e));
                            },
                        };
                        insert_file(&mut files, path, data);
                    }
                }
            },
        }
        proof {
            assert(entries.take(i as int + 1).drop_last() =~= entries.take(i as int));
            assert(entries.take(i as int + 1).last() == entries[i as int]);
        }
        i += 1;
    }
    proof {
        assert(entries_of(*old(a)).take(n as int) =~= entries_of(*old(a)));
    }
    Ok(Jar { files })
}

/// Opens the given bytes as a ZIP archive and extracts every entry the
/// rules accept, keyed by logical path. It succeeds exactly when the
/// bytes parse as an archive, every record can be looked up, and every
/// record the rules accept can be read in full; any such failure aborts
/// the whole extraction, and skipped records are never read.
pub fn jar_from_bytes(bytes: Vec<u8>, option: JarOption) -> (r: Result<Jar, JarError>)
    ensures
        (r is Ok <==> parse_ok(bytes@) && extraction_ok(parsed_entries(bytes@), option)),
        (r matches Ok(j) ==> j.wf() && j@ == extracted_map(parsed_entries(bytes@), option)),
{
    let mut archive = match open_archive(bytes) {
        Ok(a) => a,
        Err(e) => {
            return Err(JarError::new(e));
        },
    };
    extract_entries(&mut archive, &option)
}

/// Every accepted, non-directory record with a representable path lands in
/// the result under that path.
pub proof fn lemma_accepted_entry_included(entries: Seq<ZipEntry>, opt: JarOption, i: int)
    requires
        0 <= i < entries.len(),
        !entries[i].is_dir,
        entries[i].path is Some,
        accepts(opt, entries[i].path->0),
    ensures
        extracted_map(entries, opt).contains_key(entries[i].path->0),
    decreases entries.len(),
{
    if i < entries.len() - 1 {
        assert(entries.drop_last()[i] == entries[i]);
        lemma_accepted_entry_included(entries.drop_last(), opt, i);
    }
}

/// The accept-all property: with no rules at all, every non-directory
/// record with a representable path appears in the result.
pub proof fn lemma_accept_all_extracts_everything(entries: Seq<ZipEntry>, opt: JarOption, i: int)
    requires
        opt.target_rules().len() == 0,
        opt.extension_rules().len() == 0,
        0 <= i < entries.len(),
        !entries[i].is_dir,
        entries[i].path is Some,
    ensures
        extracted_map(entries, opt).contains_key(entries[i].path->0),
{
    lemma_empty_rules_accept_all(opt, entries[i].path->0);
    lemma_accepted_entry_included(entries, opt, i);
}

/// A record whose path starts with a registered prefix is included,
/// whatever extension rules are registered.
pub proof fn lemma_prefix_entry_included(entries: Seq<ZipEntry>, opt: JarOption, i: int, k: int)
    requires
        0 <= i < entries.len(),
        !entries[i].is_dir,
        entries[i].path is Some,
        0 <= k < opt.target_rules().len(),
        str_bytes(opt.target_rules()[k]).is_prefix_of(str_bytes(entries[i].path->0)),
    ensures
        extracted_map(entries, opt).contains_key(entries[i].path->0),
{
    lemma_prefix_rule_accepts(opt, entries[i].path->0, k);
    lemma_accepted_entry_included(entries, opt, i);
}

/// Every key of the result comes from an accepted, non-directory record
/// carrying that very path; in particular a directory record never
/// contributes a key.
pub proof fn lemma_keys_are_accepted_files(entries: Seq<ZipEntry>, opt: JarOption)
    ensures
        forall|p: Seq<char>|
            #[trigger] extracted_map(entries, opt).contains_key(p) ==> exists|i: int|
                0 <= i < entries.len() && !entries[i].is_dir && entries[i].path == Some(p)
                    && accepts(opt, p),
    decreases entries.len(),
{
    if entries.len() > 0 {
        lemma_keys_are_accepted_files(entries.drop_last(), opt);
        assert forall|p: Seq<char>| #[trigger]
            extracted_map(entries, opt).contains_key(p) implies exists|i: int|
            0 <= i < entries.len() && !entries[i].is_dir && entries[i].path == Some(p) && accepts(
                opt,
                p,
            ) by {
            let e = entries.last();
            let last = entries.len() - 1;
            if !e.is_dir && e.path is Some && accepts(opt, e.path->0) && p == e.path->0 {
                assert(0 <= last < entries.len() && !entries[last].is_dir && entries[last].path
                    == Some(p) && accepts(opt, p));
            } else {
                assert(extracted_map(entries.drop_last(), opt).contains_key(p));
                let w = choose|i: int|
                    0 <= i < entries.drop_last().len() && !entries.drop_last()[i].is_dir
                        && entries.drop_last()[i].path == Some(p) && accepts(opt, p);
                assert(entries.drop_last()[w] == entries[w]);
                assert(0 <= w < entries.len() && !entries[w].is_dir && entries[w].path == Some(p)
                    && accepts(opt, p));
            }
        }
    }
}

/// Of several records that share one path, the bytes of the last accepted,
/// non-directory one are what the result stores: the later record wins.
pub proof fn lemma_last_write_wins(entries: Seq<ZipEntry>, opt: JarOption, i: int)
    requires
        0 <= i < entries.len(),
        !entries[i].is_dir,
        entries[i].path is Some,
        accepts(opt, entries[i].path->0),
        forall|j: int|
            #![trigger entries[j]]
            i < j < entries.len() ==> entries[j].is_dir || entries[j].path != entries[i].path,
    ensures
        extracted_map(entries, opt)[entries[i].path->0] == entries[i].data,
    decreases entries.len(),
{
    if i < entries.len() - 1 {
        assert(entries.drop_last()[i] == entries[i]);
        lemma_last_write_wins(entries.drop_last(), opt, i);
        assert(entries[entries.len() - 1].is_dir || entries[entries.len() - 1].path
            != entries[i].path);
    }
}

} // verus!

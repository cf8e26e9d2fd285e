//! Whole-archive extraction, on archives built in memory with the same
//! `zip` crate that the library reads them with.

use std::io::Cursor;
use std::io::Read;
use std::io::Write;

use zip::write::SimpleFileOptions;
use zip::ZipWriter;

use jars::jar_from_bytes;
use jars::extract_entries;
use jars::Jar;
use jars::JarOptionBuilder;

/// One record to write: a file with bytes, or a directory marker.
enum Rec<'a> {
    File(&'a str, &'a [u8]),
    Dir(&'a str),
}

fn archive_bytes(records: &[Rec<'_>]) -> Vec<u8> {
    let mut writer = ZipWriter::new(Cursor::new(Vec::new()));
    let options = SimpleFileOptions::default();
    for record in records {
        match record {
            Rec::File(name, data) => {
                writer.start_file(*name, options).unwrap();
                writer.write_all(data).unwrap();
            }
            Rec::Dir(name) => {
                writer.add_directory(*name, options).unwrap();
            }
        }
    }
    writer.finish().unwrap().into_inner()
}

fn lookup<'a>(jar: &'a Jar, key: &str) -> Option<&'a Vec<u8>> {
    jar.files.iter().find(|pair| pair.0 == key).map(|pair| &pair.1)
}

fn key_count(jar: &Jar, key: &str) -> usize {
    jar.files.iter().filter(|pair| pair.0 == key).count()
}

#[test]
fn accept_all_takes_every_file() {
    let bytes = archive_bytes(&[
        Rec::File("a.txt", b"alpha"),
        Rec::Dir("sub/"),
        Rec::File("sub/b.bin", &[0u8, 1, 2, 255]),
    ]);
    let jar = jar_from_bytes(bytes, JarOptionBuilder::default()).unwrap();
    assert_eq!(jar.files.len(), 2);
    assert_eq!(lookup(&jar, "a.txt").unwrap(), b"alpha");
    assert_eq!(lookup(&jar, "sub/b.bin").unwrap(), &[0u8, 1, 2, 255]);
}

#[test]
fn prefix_match_includes_whatever_the_extension_rules_say() {
    let bytes = archive_bytes(&[
        Rec::File("java/lang/Object.class", b"obj"),
        Rec::File("doc/readme.txt", b"doc"),
    ]);
    let opt = JarOptionBuilder::builder()
        .target("java/lang")
        .ext("nothing-ends-with-this")
        .build();
    let jar = jar_from_bytes(bytes, opt).unwrap();
    assert_eq!(jar.files.len(), 1);
    assert!(lookup(&jar, "java/lang/Object.class").is_some());
    assert!(lookup(&jar, "doc/readme.txt").is_none());
}

#[test]
fn extension_suffix_rule_extracts_classes() {
    let bytes = archive_bytes(&[
        Rec::File("java/lang/Object.class", b"obj"),
        Rec::File("doc/readme.txt", b"doc"),
    ]);
    // `ass` is not the real extension, only a suffix of it; and the prefix
    // rule keeps the prefix dimension from matching everything.
    let opt = JarOptionBuilder::builder().target("zzz").ext("ass").build();
    let jar = jar_from_bytes(bytes, opt).unwrap();
    assert_eq!(jar.files.len(), 1);
    assert!(lookup(&jar, "java/lang/Object.class").is_some());
}

#[test]
fn stored_bytes_equal_what_the_reader_hands_out() {
    let payload: Vec<u8> = (0..4096u32).map(|i| (i % 251) as u8).collect();
    let bytes = archive_bytes(&[Rec::File("data/blob.bin", &payload)]);

    // What the archive reader itself decompresses for that entry.
    let mut direct_archive = zip::ZipArchive::new(Cursor::new(bytes.clone())).unwrap();
    let mut direct = Vec::new();
    direct_archive
        .by_index(0)
        .unwrap()
        .read_to_end(&mut direct)
        .unwrap();
    assert_eq!(direct, payload);

    let jar = jar_from_bytes(bytes, JarOptionBuilder::default()).unwrap();
    assert_eq!(lookup(&jar, "data/blob.bin").unwrap(), &direct);
}

#[test]
fn extracting_an_archive_opened_by_the_caller() {
    let bytes = archive_bytes(&[Rec::File("a.txt", b"alpha")]);
    let mut archive = zip::ZipArchive::new(Cursor::new(bytes)).unwrap();
    let opt = JarOptionBuilder::default();
    let jar = extract_entries(&mut archive, &opt).unwrap();
    assert_eq!(jar.files.len(), 1);
    assert_eq!(lookup(&jar, "a.txt").unwrap(), b"alpha");
}

#[test]
fn directories_never_appear_as_keys() {
    let bytes = archive_bytes(&[
        Rec::Dir("java/"),
        Rec::Dir("java/lang/"),
        Rec::File("java/lang/Object.class", b"obj"),
    ]);
    // The directory paths match the prefix rule; they are skipped anyway.
    let opt = JarOptionBuilder::builder().target("java").build();
    let jar = jar_from_bytes(bytes, opt).unwrap();
    assert!(lookup(&jar, "java/").is_none());
    assert!(lookup(&jar, "java/lang/").is_none());
    assert!(lookup(&jar, "java/lang").is_none());
    assert!(lookup(&jar, "java/lang/Object.class").is_some());
}

#[test]
fn two_records_one_logical_path_later_wins() {
    // The two raw names differ, but both normalize to `dup.txt`.
    let bytes = archive_bytes(&[
        Rec::File("dup.txt", b"first"),
        Rec::File("x/../dup.txt", b"second"),
    ]);
    let jar = jar_from_bytes(bytes, JarOptionBuilder::default()).unwrap();
    assert_eq!(key_count(&jar, "dup.txt"), 1);
    assert_eq!(lookup(&jar, "dup.txt").unwrap(), b"second");
}

#[test]
fn traversal_unsafe_path_is_skipped_silently() {
    let bytes = archive_bytes(&[
        Rec::File("../evil.txt", b"evil"),
        Rec::File("good.txt", b"good"),
    ]);
    let jar = jar_from_bytes(bytes, JarOptionBuilder::default()).unwrap();
    assert_eq!(jar.files.len(), 1);
    assert!(lookup(&jar, "good.txt").is_some());
    assert!(!jar.files.iter().any(|pair| pair.0.contains("evil")));
}

#[test]
fn malformed_bytes_fail_without_panic() {
    let err = jar_from_bytes(vec![1, 2, 3, 4], JarOptionBuilder::default());
    assert!(err.is_err());
    let err = jar_from_bytes(Vec::new(), JarOptionBuilder::default());
    assert!(err.is_err());
}

#[test]
fn java_lang_scenario() {
    let bytes = archive_bytes(&[
        Rec::File("java/lang/Object.class", b"obj"),
        Rec::File("java/util/List.class", b"list"),
        Rec::File("META-INF/MANIFEST.MF", b"mf"),
        Rec::Dir("java/lang/"),
    ]);

    // With only a prefix rule the extension dimension has no rules, so it
    // matches every path and the `or` of the two dimensions accepts every
    // file; only the directory record stays out.
    let opt = JarOptionBuilder::builder().target("java/lang").build();
    let jar = jar_from_bytes(bytes.clone(), opt).unwrap();
    assert_eq!(jar.files.len(), 3);
    assert!(lookup(&jar, "java/lang/Object.class").is_some());
    assert!(lookup(&jar, "java/util/List.class").is_some());
    assert!(lookup(&jar, "META-INF/MANIFEST.MF").is_some());
    assert!(lookup(&jar, "java/lang/").is_none());

    // With some extension rule registered as well, the prefix rule starts
    // to select: only `java/lang/...` is left.
    let opt = JarOptionBuilder::builder()
        .target("java/lang")
        .ext("nothing-ends-with-this")
        .build();
    let jar = jar_from_bytes(bytes, opt).unwrap();
    assert_eq!(jar.files.len(), 1);
    assert!(lookup(&jar, "java/lang/Object.class").is_some());
}

#[test]
fn meta_info_scenario() {
    let bytes = archive_bytes(&[
        Rec::File("java/lang/Object.class", b"obj"),
        Rec::File("META-INF/MANIFEST.MF", b"mf"),
    ]);
    let opt = JarOptionBuilder::builder()
        .keep_meta_info()
        .ext("nothing-ends-with-this")
        .build();
    let jar = jar_from_bytes(bytes, opt).unwrap();
    assert_eq!(jar.files.len(), 1);
    assert!(lookup(&jar, "META-INF/MANIFEST.MF").is_some());
}

fn find_subslice(haystack: &[u8], needle: &[u8]) -> Option<usize> {
    haystack.windows(needle.len()).position(|w| w == needle)
}

#[test]
fn corrupt_rejected_entry_is_never_read() {
    let marker = b"CORRUPTION-MARKER-PAYLOAD-BYTES";
    let mut writer = ZipWriter::new(Cursor::new(Vec::new()));
    let stored =
        SimpleFileOptions::default().compression_method(zip::CompressionMethod::Stored);
    writer.start_file("bad.bin", stored).unwrap();
    writer.write_all(marker).unwrap();
    writer.start_file("good.txt", stored).unwrap();
    writer.write_all(b"good").unwrap();
    let mut bytes = writer.finish().unwrap().into_inner();
    // Flip one payload byte so the entry's checksum no longer matches.
    let pos = find_subslice(&bytes, marker).unwrap();
    bytes[pos] ^= 0xFF;

    // The rules reject the corrupt entry, so its bytes are never read and
    // the extraction succeeds on the rest.
    let opt = JarOptionBuilder::builder().target("good").ext("txt").build();
    let jar = jar_from_bytes(bytes.clone(), opt).unwrap();
    assert_eq!(jar.files.len(), 1);
    assert!(lookup(&jar, "good.txt").is_some());

    // Accepting every entry forces the read, which fails on the corrupt
    // record and aborts the whole extraction.
    assert!(jar_from_bytes(bytes, JarOptionBuilder::default()).is_err());
}

use std::io::Write;

use sigilsmith::fingerprint::{hash_path, hash_path_with_prefix, unknown_id};
use sigilsmith::info_json::{find_info_json, find_meta_lsx, read_json_mods, FoundFile};
use sigilsmith::larian_pak::{
    check_description, describe_extracted, is_readable, read_meta_lsx_from_pak, try_describe_pak,
    try_read_meta_lsx_from_pak,
};
use sigilsmith::metadata::{
    extract_uuid_strings, find_bytes, is_base_dependency_label, is_base_dependency_uuid,
    parse_created_at_value, parse_meta_lsx, pick_reading, push_dependency_ref,
    scan_dependency_refs, split_tags,
};
use sigilsmith::pak_index::{
    check_block, find_meta_entry, locate_table, normalize_path, pick_meta, read_meta_lsx_from_pak_custom, read_meta_lsx_from_pak_fuzzy, read_meta_lsx_from_pak_raw, read_pak_index_entries, read_u32, read_u64, scan_pak_index, unpack, unpack_block, CompressionType, PakError,
};

const META: &str = r#"<?xml version="1.0" encoding="UTF-8"?>
<save>
  <region id="Config">
    <node id="root">
      <children>
        <node id="Dependencies">
          <children>
            <node id="ModuleShortDesc">
              <attribute id="Folder" type="LSString" value="Helper"/>
              <attribute id="UUID" type="FixedString" value="aaaaaaaa-bbbb-cccc-dddd-eeeeeeeeeeee"/>
            </node>
            <node id="ModuleShortDesc">
              <attribute id="Name" type="LSString" value="GustavDev"/>
              <attribute id="UUID" type="FixedString" value="28ac9ce2-2aba-8cda-b3b5-6e922f71b6b8"/>
            </node>
          </children>
        </node>
        <node id="ModuleInfo">
          <attribute id="Author" type="LSString" value="Tav &amp; Co"/>
          <attribute id="Name" type="LSString" value="Lanterns"/>
          <attribute id="Folder" type="LSString" value="Lanterns_F"/>
          <attribute id="UUID" type="FixedString" value="11111111-2222-3333-4444-55555555555f"/>
          <attribute id="Version64" type="int64" value="36028797018963968"/>
          <attribute id="Tags" type="LSString" value="light; cave"/>
          <attribute id="Created" type="LSString" value="2024-01-02T03:04:05Z"/>
          <attribute id="PublishHandle" type="uint64" value="x"/>
        </node>
      </children>
    </node>
  </region>
</save>"#;

struct Packed {
    path: &'static str,
    bytes: Vec<u8>,
    size: usize,
    kind: u8,
}

fn stored(path: &'static str, bytes: &[u8]) -> Packed {
    Packed { path, bytes: bytes.to_vec(), size: bytes.len(), kind: 0 }
}

fn table(files: &[Packed]) -> Vec<u8> {
    let mut out = Vec::new();
    let mut at: u64 = 16;
    for f in files {
        let mut entry = vec![0u8; 272];
        entry[..f.path.len()].copy_from_slice(f.path.as_bytes());
        entry[256..260].copy_from_slice(&(at as u32).to_le_bytes());
        entry[263] = f.kind;
        entry[264..268].copy_from_slice(&(f.bytes.len() as u32).to_le_bytes());
        entry[268..272].copy_from_slice(&(f.size as u32).to_le_bytes());
        out.extend(entry);
        at += f.bytes.len() as u64;
    }
    out
}

fn package(files: &[Packed], packed_table: &[u8]) -> Vec<u8> {
    let mut body: Vec<u8> = Vec::new();
    for f in files {
        body.extend(&f.bytes);
    }
    let mut out = b"LSPK".to_vec();
    out.extend(18u32.to_le_bytes());
    out.extend((16 + body.len() as u64).to_le_bytes());
    out.extend(body);
    out.extend((files.len() as u32).to_le_bytes());
    out.extend((packed_table.len() as u32).to_le_bytes());
    out.extend(packed_table);
    out
}

fn lz4_package(files: &[Packed]) -> Vec<u8> {
    package(files, &lz4_flex::block::compress(&table(files)))
}

fn found(path: &str, depth: usize) -> FoundFile {
    FoundFile { path: path.to_string(), depth }
}

#[test]
fn a_description_is_read() {
    let meta = parse_meta_lsx(META.as_bytes());
    assert_eq!(meta.name.as_deref(), Some("Lanterns"));
    assert_eq!(meta.folder.as_deref(), Some("Lanterns_F"));
    assert_eq!(meta.uuid.as_deref(), Some("11111111-2222-3333-4444-55555555555f"));
    assert_eq!(meta.author.as_deref(), Some("Tav & Co"));
    assert_eq!(meta.version, Some(36028797018963968));
    assert_eq!(meta.publish_handle, None);
    assert_eq!(meta.created_at, Some(1704164645));
    assert_eq!(meta.tags, vec!["light", "cave"]);
    assert_eq!(meta.dependencies, vec!["Helper_aaaaaaaa-bbbb-cccc-dddd-eeeeeeeeeeee"]);
}

#[test]
fn a_broken_description_keeps_what_came_before() {
    let cut = META.find("<attribute id=\"Folder\" type=\"LSString\" value=\"Lanterns_F\"").unwrap();
    let mut text = META[..cut].to_string();
    text.push_str("</wrong>");
    let meta = parse_meta_lsx(text.as_bytes());
    assert_eq!(meta.name.as_deref(), Some("Lanterns"));
    assert_eq!(meta.folder, None);
    assert_eq!(parse_meta_lsx(b"").name, None);
}

#[test]
fn dates_of_descriptions() {
    assert_eq!(parse_created_at_value("2024-01-02T03:04:05Z"), Some(1704164645));
    assert_eq!(parse_created_at_value("2024-01-02T03:04:05+01:00"), Some(1704161045));
    assert_eq!(parse_created_at_value(" 2024-01-02T03:04:05 "), Some(1704164645));
    assert_eq!(parse_created_at_value("2024-01-02 03:04:05"), Some(1704164645));
    assert_eq!(parse_created_at_value("2024-01-02"), Some(1704153600));
    assert_eq!(parse_created_at_value("soon"), None);
    assert_eq!(parse_created_at_value("   "), None);
}

#[test]
fn the_first_reading_counts() {
    assert_eq!(pick_reading(Some(1), Some(2), None, None), Some(1));
    assert_eq!(pick_reading(None, None, Some(3), Some(4)), Some(3));
    assert_eq!(pick_reading(None, None, None, None), None);
}

#[test]
fn parts_of_the_game_are_no_dependencies() {
    assert!(is_base_dependency_label("Gustav-Dev"));
    assert!(!is_base_dependency_label("Gustavo"));
    assert!(is_base_dependency_uuid("28AC9CE2-2aba-8cda-b3b5-6e922f71b6b8"));
    let mut deps = Vec::new();
    push_dependency_ref(&mut deps, None, Some(" Tools ".to_string()));
    push_dependency_ref(&mut deps, Some("u".to_string()), Some("Shared".to_string()));
    push_dependency_ref(&mut deps, Some("v".to_string()), Some("W".to_string()));
    push_dependency_ref(&mut deps, None, None);
    assert_eq!(deps, vec!["Tools", "u", "W_v"]);
}

#[test]
fn tags_are_split() {
    assert_eq!(split_tags("a, b;;c "), vec!["a", "b", "c"]);
}

#[test]
fn ids_among_bytes() {
    let bytes = b"..aaaaaaaa-bbbb-cccc-dddd-eeeeeeeeeeee!!";
    assert_eq!(extract_uuid_strings(bytes), vec!["aaaaaaaa-bbbb-cccc-dddd-eeeeeeeeeeee"]);
    assert_eq!(find_bytes(b"abcabc", b"ca"), Some(2));
    assert_eq!(find_bytes(b"abc", b"x"), None);
    assert!(scan_dependency_refs(bytes).is_empty());
    let named = b"Dependencies aaaaaaaa-bbbb-cccc-dddd-eeeeeeeeeeee";
    assert_eq!(scan_dependency_refs(named).len(), 1);
}

#[test]
fn json_descriptions_are_read() {
    let text = br#"{"Mods":[
        {"UUID":"u","Name":"N","Folder":"F","created":"2024-01-02",
         "Dependencies":[" b ",{"UUID":"a","uuid":"c"},7,""],"requiredMods":["b"]},
        "skipped", {}]}"#;
    let mods = read_json_mods(text);
    assert_eq!(mods.len(), 2);
    assert_eq!(mods[0].uuid.as_deref(), Some("u"));
    assert_eq!(mods[0].name.as_deref(), Some("N"));
    assert_eq!(mods[0].folder.as_deref(), Some("F"));
    assert_eq!(mods[0].created_at, Some(1704153600));
    assert_eq!(mods[0].dependencies, vec!["a", "b", "c"]);
    assert_eq!(mods[1].name, None);
    assert!(mods[1].dependencies.is_empty());
}

#[test]
fn json_of_a_single_mod() {
    let one = read_json_mods(br#"{"Name":"Solo"}"#);
    assert_eq!(one.len(), 1);
    assert_eq!(one[0].name.as_deref(), Some("Solo"));
    assert!(read_json_mods(b"[1]").is_empty());
    assert!(read_json_mods(b"{").is_empty());
}

#[test]
fn descriptions_are_found_by_place() {
    let files = vec![
        found("/r/meta.lsx", 1),
        found("/r/a/Mods/X/meta.lsx", 4),
        found("/r/Mods/X/Meta.lsx", 3),
        found("/r/mod.json", 1),
        found("/r/sub/info.json", 2),
    ];
    assert_eq!(find_meta_lsx(&files), Some(2));
    assert_eq!(find_info_json(&files), Some(4));
    assert_eq!(find_meta_lsx(&files[3..]), None);
    assert_eq!(find_info_json(&files[..3]), None);
}

#[test]
fn numbers_in_a_file() {
    let bytes = [1u8, 2, 0, 0, 1, 0, 0, 0, 9];
    assert_eq!(read_u32(&bytes, 0), Some(513));
    assert_eq!(read_u32(&bytes, 6), None);
    assert_eq!(read_u64(&bytes, 0), Some(513 + 4294967296));
    assert_eq!(read_u64(&bytes, 2), None);
}

#[test]
fn package_paths_are_plain() {
    assert_eq!(normalize_path("\\\\Mods\\Foo\\Meta.LSX"), "mods/foo/meta.lsx");
}

#[test]
fn an_index_is_listed() {
    let files = [stored("Public/X/Stats.txt", b"abc"), stored("Mods/X/meta.lsx", META.as_bytes())];
    let file = lz4_package(&files);
    let listed = scan_pak_index(&file).unwrap();
    assert_eq!(listed.len(), 2);
    assert_eq!(listed[0].key, "public/x/stats.txt");
    assert_eq!(listed[0].size, 3);
    let entries = read_pak_index_entries(&file).unwrap();
    assert_eq!(entries[0].offset, 16);
    assert_eq!(entries[1].offset, 19);
    assert_eq!(entries[1].compression, CompressionType::Stored);
    assert_eq!(unpack(&file, &entries[0]), Some(b"abc".to_vec()));
    assert_eq!(find_meta_entry(&entries), Some(1));
}

#[test]
fn an_index_in_zstandard() {
    let files = [stored("meta.lsx", META.as_bytes())];
    let packed = zstd::bulk::compress(&table(&files), 3).unwrap();
    let file = package(&files, &packed);
    let entries = read_pak_index_entries(&file).unwrap();
    assert_eq!(entries.len(), 1);
    assert_eq!(entries[0].path, "meta.lsx");
    assert!(matches!(scan_pak_index(&file), Err(PakError::BadTable)));
}

#[test]
fn each_compression_is_undone() {
    let plain = META.as_bytes();
    let mut zlib = flate2::write::ZlibEncoder::new(Vec::new(), flate2::Compression::default());
    zlib.write_all(plain).unwrap();
    let packed: Vec<(u8, Vec<u8>)> = vec![
        (0, plain.to_vec()),
        (1, zlib.finish().unwrap()),
        (2, lz4_flex::block::compress(plain)),
        (3, zstd::bulk::compress(plain, 3).unwrap()),
    ];
    for (kind, bytes) in packed {
        let files =
            [Packed { path: "x/Mods/X/meta.lsx", bytes, size: plain.len(), kind: kind + 16 }];
        let meta = read_meta_lsx_from_pak_custom(&lz4_package(&files)).unwrap();
        assert_eq!(meta.name.as_deref(), Some("Lanterns"));
    }
    let broken = [Packed { path: "x/mods/X/meta.lsx", bytes: vec![255; 9], size: 4, kind: 3 }];
    assert!(read_meta_lsx_from_pak_custom(&lz4_package(&broken)).is_none());
}

#[test]
fn names_in_an_index_need_not_be_text() {
    let mut entry = vec![0u8; 272];
    entry[..3].copy_from_slice(&[b'A', 0xff, b'B']);
    let packed = lz4_flex::block::compress(&entry);
    let mut file = b"LSPK".to_vec();
    file.extend(18u32.to_le_bytes());
    file.extend(16u64.to_le_bytes());
    file.extend(1u32.to_le_bytes());
    file.extend((packed.len() as u32).to_le_bytes());
    file.extend(&packed);
    let entries = read_pak_index_entries(&file).unwrap();
    assert_eq!(entries[0].path, "a\u{fffd}b");
}

#[test]
fn why_an_index_cannot_be_read() {
    let good = lz4_package(&[stored("a", b"b")]);
    assert!(matches!(locate_table(b"LS"), Err(PakError::Truncated)));
    assert!(matches!(locate_table(b"ZIPX0000"), Err(PakError::BadHeader)));
    let mut old = good.clone();
    old[4] = 15;
    assert!(matches!(locate_table(&old), Err(PakError::OldVersion(15))));
    let mut far = good.clone();
    far[15] = 255;
    assert!(matches!(locate_table(&far), Err(PakError::BadOffset)));
    assert!(matches!(locate_table(&good[..good.len() - 1]), Err(PakError::Truncated)));
    let bad = package(&[stored("a", b"b")], &[255u8; 12]);
    assert!(matches!(scan_pak_index(&bad), Err(PakError::BadTable)));
    assert!(scan_pak_index(&good).is_ok());
}

#[test]
fn descriptions_among_the_bytes_of_a_package() {
    let mut bytes = vec![0u8, 1, 2];
    bytes.extend(META.as_bytes());
    bytes.extend([3u8; 20]);
    let meta = read_meta_lsx_from_pak_fuzzy(&bytes).unwrap();
    assert_eq!(meta.name.as_deref(), Some("Lanterns"));
    assert!(read_meta_lsx_from_pak_fuzzy(b"nothing here").is_none());
    let raw = b"Dependencies: aaaaaaaa-bbbb-cccc-dddd-eeeeeeeeeeee";
    assert_eq!(read_meta_lsx_from_pak_raw(raw).unwrap().dependencies.len(), 1);
    assert!(read_meta_lsx_from_pak_raw(b"none").is_none());
}

#[test]
fn the_index_comes_before_what_was_taken_out() {
    let other = META.replace("\"Lanterns\"", "\"Other\"");
    let file = lz4_package(&[stored("x/mods/X/meta.lsx", META.as_bytes())]);
    let a = pick_meta(&file, Some(other.clone().into_bytes())).unwrap();
    assert_eq!(a.name.as_deref(), Some("Lanterns"));
    let b = pick_meta(b"no package", Some(other.into_bytes())).unwrap();
    assert_eq!(b.name.as_deref(), Some("Other"));
    assert!(pick_meta(b"no package", None).is_none());
}

#[test]
fn paths_have_fingerprints() {
    let digest = |text: &[u8]| blake3::hash(text).to_hex().to_string();
    let plain = hash_path("/mods/a.pak", None);
    assert_eq!(plain, format!("loose-{}", digest(b"/mods/a.pak")));
    let mut dated = b"/mods/a.pak".to_vec();
    dated.extend(5u64.to_le_bytes());
    assert_eq!(hash_path("/mods/a.pak", Some(5)), format!("loose-{}", digest(&dated)));
    let native = hash_path_with_prefix("/mods/a.pak", None, "native");
    assert_eq!(native, format!("native-{}", digest(b"/mods/a.pak")));
    assert_ne!(hash_path("/mods/b.pak", None), plain);
    assert_eq!(unknown_id("/x", Some(1)), unknown_id("/x", Some(1)));
}

#[test]
fn packages_are_described() {
    let whole = META.replace("<save>\n", "<save>\n  <version major=\"4\" minor=\"0\" revision=\"9\" build=\"331\"/>\n");
    let files = [stored("Mods/Lanterns_F/meta.lsx", whole.as_bytes())];
    let file = lz4_package(&files);
    let d = try_describe_pak(&file).unwrap();
    let module = d.module.unwrap();
    assert_eq!(module.uuid, "11111111-2222-3333-4444-55555555555f");
    assert_eq!(module.name, "Lanterns");
    assert_eq!(module.folder, "Lanterns_F");
    assert_eq!(module.version, 36028797018963968);
    assert_eq!(module.author.as_deref(), Some("Tav & Co"));
    assert_eq!(d.meta.unwrap().name.as_deref(), Some("Lanterns"));
    let partial = lz4_package(&[stored("Mods/Lanterns_F/meta.lsx", META.as_bytes())]);
    let d = try_describe_pak(&partial).unwrap();
    assert!(d.module.is_none());
    assert_eq!(d.meta.unwrap().folder.as_deref(), Some("Lanterns_F"));
    let elsewhere = try_describe_pak(&lz4_package(&[stored("Public/x.txt", b"abc")])).unwrap();
    assert!(elsewhere.module.is_none());
    assert!(elsewhere.meta.is_none());
}

#[test]
fn some_packages_cannot_be_read() {
    let fine = lz4_package(&[stored("Mods/X/meta.lsx", META.as_bytes())]);
    assert!(is_readable(&fine));
    assert!(is_readable(b"no package"));
    assert_eq!(read_meta_lsx_from_pak(&fine).unwrap().name.as_deref(), Some("Lanterns"));
    assert!(try_read_meta_lsx_from_pak(b"no package").unwrap().is_none());
    let odd = [Packed { path: "a", bytes: vec![1, 2, 3], size: 3, kind: 7 }];
    assert!(!is_readable(&lz4_package(&odd)));
    assert!(try_describe_pak(&lz4_package(&odd)).is_none());
    assert!(try_read_meta_lsx_from_pak(&lz4_package(&odd)).is_none());
    let modern = [
        Packed { path: "a", bytes: vec![1, 2, 3], size: 3, kind: 3 },
        Packed { path: "b", bytes: vec![1, 2, 3], size: 3, kind: 7 },
    ];
    assert!(is_readable(&lz4_package(&modern)));
    let mut entry = table(&[stored("a", b"b")]);
    entry[264] = 200;
    let file = package(&[stored("a", b"b")], &lz4_flex::block::compress(&entry));
    assert!(!is_readable(&file));
}

#[test]
fn odd_descriptions_are_refused() {
    let odd = b"<save><version><a:@major>1<!DOCTYPE x>2</a:@major></version></save>";
    assert!(!check_description(odd));
    assert!(!check_description(b"<version><@major>1<!DOCTYPE x>2</@major></version>"));
    assert!(check_description(b"<!DOCTYPE x><save/>"));
    assert!(check_description(b"<a:@major/>"));
    assert!(check_description(b""));
    let file = lz4_package(&[stored("Mods/X/meta.lsx", odd)]);
    assert!(is_readable(&file));
    assert!(try_describe_pak(&file).is_none());
    let headed = META.replace("<save>\n", "<!DOCTYPE x>\n<save>\n  <version major=\"4\" minor=\"0\" revision=\"9\" build=\"331\"/>\n");
    let d = describe_extracted(b"no package", Some(headed.into_bytes()));
    assert_eq!(d.module.unwrap().name, "Lanterns");
    assert!(describe_extracted(b"no package", None).meta.is_none());
}

#[test]
fn long_runs_are_no_block() {
    assert!(check_block(&lz4_flex::block::compress(b"abcabcabc")));
    assert_eq!(unpack_block(&lz4_flex::block::compress(b"abcabcabc"), 9).unwrap(), b"abcabcabc");
    let mut run = vec![0xF0u8];
    run.resize(1 + 16_843_008, 0xFF);
    assert!(check_block(&run));
    assert!(unpack_block(&run, 4).is_none());
    run.push(0xFF);
    assert!(!check_block(&run));
    assert!(unpack_block(&run, 4).is_none());
    let file = package(&[stored("a", b"b")], &run);
    assert!(!is_readable(&file));
    assert!(matches!(scan_pak_index(&file), Err(PakError::BadTable)));
    let files = [Packed { path: "a", bytes: run, size: 9, kind: 2 }];
    assert!(!is_readable(&lz4_package(&files)));
}

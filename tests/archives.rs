use std::io::Write;

use toolver::archive::{
    decompress, extension, file_name, inspect_7z_contents, inspect_tar_contents,
    inspect_zip_contents, plan_strip, plan_untar, recommends_strip, resolve_format,
    should_strip_components, strip_wrapper, summarize_top_level, tar_decoder, ArchiveError, Decoder,
    Extractor, TarFormat, TarOptions, TopEntry, ZipOptions, SevenZipOptions,
};

fn tar_bytes(entries: &[(&str, Option<&[u8]>)]) -> Vec<u8> {
    let mut b = tar::Builder::new(Vec::new());
    for (path, data) in entries {
        let mut h = tar::Header::new_gnu();
        match data {
            Some(d) => {
                h.set_entry_type(tar::EntryType::Regular);
                h.set_size(d.len() as u64);
                h.set_mode(0o644);
                h.set_cksum();
                b.append_data(&mut h, path, *d).unwrap();
            }
            None => {
                h.set_entry_type(tar::EntryType::Directory);
                h.set_size(0);
                h.set_mode(0o755);
                h.set_cksum();
                b.append_data(&mut h, path, std::io::empty()).unwrap();
            }
        }
    }
    b.into_inner().unwrap()
}

fn gz(data: &[u8]) -> Vec<u8> {
    let mut e = flate2::write::GzEncoder::new(Vec::new(), flate2::Compression::default());
    e.write_all(data).unwrap();
    e.finish().unwrap()
}

fn xz(data: &[u8]) -> Vec<u8> {
    let mut e = xz2::write::XzEncoder::new(Vec::new(), 6);
    e.write_all(data).unwrap();
    e.finish().unwrap()
}

fn bz2(data: &[u8]) -> Vec<u8> {
    let mut e = bzip2::write::BzEncoder::new(Vec::new(), bzip2::Compression::default());
    e.write_all(data).unwrap();
    e.finish().unwrap()
}

fn zst(data: &[u8]) -> Vec<u8> {
    zstd::stream::encode_all(data, 3).unwrap()
}

fn zip_bytes(entries: &[(&str, Option<&[u8]>)]) -> Vec<u8> {
    let mut w = zip::ZipWriter::new(std::io::Cursor::new(Vec::new()));
    let opts = zip::write::SimpleFileOptions::default().compression_method(zip::CompressionMethod::Stored);
    for (path, data) in entries {
        match data {
            Some(d) => {
                w.start_file(*path, opts).unwrap();
                w.write_all(d).unwrap();
            }
            None => {
                w.add_directory(*path, opts).unwrap();
            }
        }
    }
    w.finish().unwrap().into_inner()
}

#[test]
fn test_should_strip_components() {
    let result = should_strip_components("/non/existent/archive.tar.gz", &[1, 2, 3], TarFormat::TarGz);
    assert!(result.is_err());
}

#[test]
fn test_inspect_tar_contents_logic() {
    let components = vec![("mydir".to_string(), true)];
    let result = summarize_top_level(&components);
    assert_eq!(result.len(), 1);
    let (name, is_directory) = &result[0];
    assert_eq!(name, "mydir");
    assert!(*is_directory);
    let should_strip = recommends_strip(&result);
    assert!(should_strip);
}

#[test]
fn extension_table() {
    assert_eq!(TarFormat::from_ext("gz"), TarFormat::TarGz);
    assert_eq!(TarFormat::from_ext("tgz"), TarFormat::TarGz);
    assert_eq!(TarFormat::from_ext("xz"), TarFormat::TarXz);
    assert_eq!(TarFormat::from_ext("txz"), TarFormat::TarXz);
    assert_eq!(TarFormat::from_ext("bz2"), TarFormat::TarBz2);
    assert_eq!(TarFormat::from_ext("tbz2"), TarFormat::TarBz2);
    assert_eq!(TarFormat::from_ext("zst"), TarFormat::TarZst);
    assert_eq!(TarFormat::from_ext("tzst"), TarFormat::TarZst);
    assert_eq!(TarFormat::from_ext("zip"), TarFormat::Zip);
    assert_eq!(TarFormat::from_ext("7z"), TarFormat::SevenZip);
    assert_eq!(TarFormat::from_ext("tar"), TarFormat::Raw);
    assert_eq!(TarFormat::from_ext(""), TarFormat::Raw);
    assert_eq!(TarFormat::default(), TarFormat::Auto);
}

#[test]
fn format_names() {
    assert_eq!(TarFormat::TarGz.name(), "tar.gz");
    assert_eq!(TarFormat::SevenZip.name(), "7z");
    assert_eq!(TarFormat::from_name("tar.zst"), Some(TarFormat::TarZst));
    assert_eq!(TarFormat::from_name("raw"), Some(TarFormat::Raw));
    assert_eq!(TarFormat::from_name("tar"), None);
}

#[test]
fn format_resolution() {
    assert_eq!(resolve_format(TarFormat::Auto, "/dl/node-v20.tar.xz"), TarFormat::TarXz);
    assert_eq!(resolve_format(TarFormat::Auto, "/dl/tool.zip"), TarFormat::Zip);
    assert_eq!(resolve_format(TarFormat::Auto, "/dl/tool"), TarFormat::Raw);
    assert_eq!(resolve_format(TarFormat::Auto, "/dl/.hidden"), TarFormat::Raw);
    assert_eq!(resolve_format(TarFormat::TarBz2, "/dl/tool.zip"), TarFormat::TarBz2);
    assert_eq!(extension("archive.tar.gz"), Some("gz".to_string()));
    assert_eq!(extension(".bashrc"), None);
    assert_eq!(extension("name."), Some("".to_string()));
    assert_eq!(file_name("/a/b/c.txt/"), Some("c.txt".to_string()));
    assert_eq!(file_name("/"), None);
    assert_eq!(file_name("a/.."), None);
}

#[test]
fn decoder_choice() {
    assert_eq!(tar_decoder(TarFormat::Raw, "x.bin"), Ok(Decoder::Gzip));
    assert_eq!(tar_decoder(TarFormat::TarZst, "x"), Ok(Decoder::Zstd));
    assert_eq!(tar_decoder(TarFormat::Zip, "x.zip"), Err(ArchiveError::ZipThroughTar));
    assert_eq!(tar_decoder(TarFormat::SevenZip, "x.7z"), Err(ArchiveError::SevenZipThroughTar));
    assert_eq!(tar_decoder(TarFormat::Auto, "x.tar.bz2"), Ok(Decoder::Bzip2));
    assert_eq!(tar_decoder(TarFormat::Auto, "x.zip"), Err(ArchiveError::ZipThroughTar));
    assert_eq!(tar_decoder(TarFormat::Auto, "x.tgz"), Ok(Decoder::Gzip));
}

#[test]
fn strip_depth_rules() {
    assert_eq!(strip_wrapper(0), Ok(false));
    assert_eq!(strip_wrapper(1), Ok(true));
    assert_eq!(strip_wrapper(2), Err(ArchiveError::StripDepthUnsupported));
    for depth in [2usize, 3, 100] {
        for fmt in [TarFormat::Auto, TarFormat::TarGz, TarFormat::Zip, TarFormat::SevenZip] {
            let opts = TarOptions { format: fmt, strip_components: depth };
            assert_eq!(plan_untar("/dl/a.tar.gz", &opts), Err(ArchiveError::StripDepthUnsupported));
        }
    }
}

#[test]
fn untar_plans() {
    let opts = TarOptions { format: TarFormat::Auto, strip_components: 1 };
    assert_eq!(plan_untar("/dl/a.tar.xz", &opts), Ok((Extractor::Tar(Decoder::Xz), true)));
    assert_eq!(plan_untar("/dl/a.zip", &opts), Ok((Extractor::Zip, true)));
    assert_eq!(plan_untar("/dl/a.7z", &opts), Err(ArchiveError::SevenZipUnsupported));
    assert_eq!(plan_untar("/dl/a", &TarOptions::default()), Ok((Extractor::Tar(Decoder::Gzip), false)));
    assert_eq!(ZipOptions::default().strip_components, 0);
    assert_eq!(SevenZipOptions::default().strip_components, 0);
}

#[test]
fn strip_plan_for_single_wrapper() {
    let top = vec![TopEntry {
        name: "node-v20".to_string(),
        is_dir: true,
        children: vec!["bin".to_string(), "lib".to_string(), "README.md".to_string()],
    }];
    let plan = plan_strip(&top);
    assert_eq!(
        plan.moves,
        vec![
            ("node-v20".to_string(), "bin".to_string()),
            ("node-v20".to_string(), "lib".to_string()),
            ("node-v20".to_string(), "README.md".to_string()),
        ]
    );
    assert_eq!(plan.removals, vec!["node-v20".to_string()]);
}

#[test]
fn strip_plan_keeps_top_level_files() {
    let top = vec![
        TopEntry { name: "a".to_string(), is_dir: true, children: vec!["x".to_string()] },
        TopEntry { name: "notes.txt".to_string(), is_dir: false, children: vec![] },
    ];
    let plan = plan_strip(&top);
    assert_eq!(plan.moves, vec![("a".to_string(), "x".to_string())]);
    assert_eq!(plan.removals, vec!["a".to_string()]);
}

#[test]
fn inspect_multiple_top_level_entries() {
    let tar = tar_bytes(&[("lib/", None), ("lib/a.so", Some(b"x")), ("readme.txt", Some(b"hi"))]);
    let data = gz(&tar);
    let top = inspect_tar_contents("a.tar.gz", &data, TarFormat::TarGz).unwrap();
    assert_eq!(top, vec![("lib".to_string(), true), ("readme.txt".to_string(), false)]);
    assert_eq!(should_strip_components("a.tar.gz", &data, TarFormat::TarGz), Ok(false));
}

#[test]
fn inspect_single_wrapper_directory() {
    let tar = tar_bytes(&[("projectname/bin/tool", Some(b"#!")), ("projectname/README", Some(b"r"))]);
    for (data, fmt, name) in [
        (gz(&tar), TarFormat::TarGz, "p.tar.gz"),
        (xz(&tar), TarFormat::TarXz, "p.tar.xz"),
        (bz2(&tar), TarFormat::TarBz2, "p.tar.bz2"),
        (zst(&tar), TarFormat::TarZst, "p.tar.zst"),
        (gz(&tar), TarFormat::Auto, "p.tgz"),
        (xz(&tar), TarFormat::Auto, "p.txz"),
    ] {
        assert_eq!(should_strip_components(name, &data, fmt), Ok(true));
    }
}

#[test]
fn single_top_level_file_is_not_stripped() {
    let data = gz(&tar_bytes(&[("tool", Some(b"bin"))]));
    assert_eq!(should_strip_components("t.tar.gz", &data, TarFormat::TarGz), Ok(false));
    let data = gz(&tar_bytes(&[]));
    assert_eq!(should_strip_components("t.tar.gz", &data, TarFormat::TarGz), Ok(false));
}

#[test]
fn inspect_zip_archives() {
    let data = zip_bytes(&[("pkg/", None), ("pkg/a.txt", Some(b"a"))]);
    assert_eq!(inspect_zip_contents(&data), Ok(vec![("pkg".to_string(), true)]));
    assert_eq!(should_strip_components("p.zip", &data, TarFormat::Zip), Ok(true));
    let data = zip_bytes(&[("lib/x", Some(b"1")), ("readme.txt", Some(b"2"))]);
    assert_eq!(should_strip_components("p.zip", &data, TarFormat::Zip), Ok(false));
    assert_eq!(inspect_zip_contents(&[0, 1, 2]), Err(ArchiveError::ZipRead));
}

#[test]
fn seven_zip_is_unsupported() {
    assert_eq!(inspect_7z_contents(&[]), Err(ArchiveError::SevenZipUnsupported));
    assert_eq!(should_strip_components("a.7z", &[], TarFormat::SevenZip), Err(ArchiveError::SevenZipUnsupported));
}

#[test]
fn zip_through_tar_path_fails() {
    assert_eq!(inspect_tar_contents("a.zip", &[], TarFormat::Auto), Err(ArchiveError::ZipThroughTar));
    let data = zip_bytes(&[("pkg/", None), ("pkg/a.txt", Some(b"a"))]);
    assert_eq!(should_strip_components("a.zip", &data, TarFormat::Auto), Ok(true));
    let tar = tar_bytes(&[("w/x", Some(b"x"))]);
    assert_eq!(should_strip_components("a.tar", &gz(&tar), TarFormat::Auto), Ok(true));
}

#[test]
fn decoders_round_trip() {
    let payload: Vec<u8> = (0..5000u32).map(|i| (i % 251) as u8).collect();
    assert_eq!(decompress(Decoder::Gzip, &gz(&payload)), Some(payload.clone()));
    assert_eq!(decompress(Decoder::Xz, &xz(&payload)), Some(payload.clone()));
    assert_eq!(decompress(Decoder::Bzip2, &bz2(&payload)), Some(payload.clone()));
    assert_eq!(decompress(Decoder::Zstd, &zst(&payload)), Some(payload.clone()));
    assert_eq!(decompress(Decoder::Xz, &[9, 9, 9]), None);
}

#[test]
fn corrupt_tar_stream_is_reported() {
    assert_eq!(should_strip_components("a.tar.xz", &[1, 2, 3], TarFormat::TarXz), Err(ArchiveError::Decompress));
}

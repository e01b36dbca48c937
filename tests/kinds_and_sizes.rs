use tauzip::engine::{
    detect_archive_format, entry_progress, entry_target, extraction_reports, get_compression_types,
    is_compressed_file,
    validate_compression_type, ArchiveError,
};
use tauzip::kind::CompressionType;
use tauzip::path::{FsPath, PathPart};
use tauzip::progress::{Percent, ProgressReader, ProgressWriter};
use tauzip::size::{calculate_path_size, calculate_total_size, InputNode};

fn fs(parts: &[&str]) -> FsPath {
    let mut v = Vec::new();
    for p in parts {
        if *p == "/" {
            v.push(PathPart::RootDir);
        } else if *p == ".." {
            v.push(PathPart::ParentDir);
        } else {
            v.push(PathPart::Normal(p.to_string()));
        }
    }
    FsPath { parts: v }
}

fn file(name: &str, size: u64) -> InputNode {
    InputNode::File { path: fs(&["/", name]), size }
}

#[test]
fn extensions_of_each_kind() {
    assert_eq!(CompressionType::Zip.extension(), ".zip");
    assert_eq!(CompressionType::TarGz.extension(), ".tar.gz");
    assert_eq!(CompressionType::TarBr.extension(), ".tar.br");
    assert_eq!(CompressionType::Gz.extension(), ".gz");
    assert_eq!(CompressionType::Br.extension(), ".br");
    assert_eq!(CompressionType::Gzip.extension(), ".gzip");
    assert_eq!(CompressionType::Bzip2.extension(), ".bz2");
}

#[test]
fn kinds_from_suffixes_ignore_case() {
    assert_eq!(CompressionType::from_extension(".TGZ"), Some(CompressionType::TarGz));
    assert_eq!(CompressionType::from_extension(".Tar.Br"), Some(CompressionType::TarBr));
    assert_eq!(CompressionType::from_extension(".bzip2"), Some(CompressionType::Bzip2));
    assert_eq!(CompressionType::from_extension(".rar"), None);
    assert_eq!(CompressionType::from_extension("zip"), None);
    for k in [
        CompressionType::Zip,
        CompressionType::TarGz,
        CompressionType::TarBr,
        CompressionType::Gz,
        CompressionType::Br,
        CompressionType::Gzip,
        CompressionType::Bzip2,
    ] {
        assert_eq!(CompressionType::from_extension(k.extension()), Some(k));
        assert_eq!(CompressionType::from_name(k.name()), Some(k));
    }
}

#[test]
fn only_containers_hold_several_files() {
    assert!(CompressionType::Zip.supports_multiple_files());
    assert!(CompressionType::TarGz.supports_multiple_files());
    assert!(CompressionType::TarBr.supports_multiple_files());
    assert!(!CompressionType::Gz.supports_multiple_files());
    assert!(!CompressionType::Br.supports_multiple_files());
    assert!(!CompressionType::Gzip.supports_multiple_files());
    assert!(!CompressionType::Bzip2.supports_multiple_files());
}

#[test]
fn validation_of_kind_names() {
    assert!(matches!(validate_compression_type(2, "Gz"), Ok(false)));
    assert!(matches!(validate_compression_type(1, "Gz"), Ok(true)));
    assert!(matches!(validate_compression_type(5, "Zip"), Ok(true)));
    match validate_compression_type(1, "Rar") {
        Err(ArchiveError::UnknownCompressionType(s)) => assert_eq!(s, "Rar"),
        other => panic!("unexpected {:?}", other),
    }
    assert_eq!(get_compression_types().len(), 7);
    assert_eq!(get_compression_types()[6], "Bzip2");
}

#[test]
fn total_size_of_flat_files() {
    let inputs = vec![file("a", 10), file("b", 0), file("c", 32)];
    assert_eq!(calculate_total_size(&inputs), Some(42));
}

#[test]
fn total_size_counts_nested_files() {
    let inner = InputNode::Dir { path: fs(&["/", "d", "e"]), children: vec![file("x", 7)] };
    let dir = InputNode::Dir {
        path: fs(&["/", "d"]),
        children: vec![file("y", 5), inner, InputNode::Other { path: fs(&["/", "d", "link"]) }],
    };
    assert_eq!(calculate_path_size(&dir), Some(12));
    assert_eq!(calculate_total_size(&vec![file("z", 10), dir]), Some(22));
}

#[test]
fn total_size_of_empty_directories_is_zero() {
    let dir = InputNode::Dir { path: fs(&["/", "d"]), children: vec![] };
    assert_eq!(calculate_total_size(&vec![dir]), Some(0));
    assert_eq!(calculate_total_size(&vec![]), Some(0));
}

#[test]
fn total_size_overflow_is_reported() {
    let inputs = vec![file("a", u64::MAX), file("b", 1)];
    assert_eq!(calculate_total_size(&inputs), None);
    let dir = InputNode::Dir { path: fs(&["/", "d"]), children: vec![file("a", u64::MAX), file("b", 2)] };
    assert_eq!(calculate_path_size(&dir), None);
}

#[test]
fn writer_reports_capped_fractions() {
    let mut w = ProgressWriter::new(100, "f.txt".to_string());
    assert_eq!(w.record(30), Some(Percent { num: 30, den: 100 }));
    assert_eq!(w.record(50), Some(Percent { num: 80, den: 100 }));
    assert_eq!(w.record(50), Some(Percent { num: 100, den: 100 }));
    assert_eq!(w.bytes_written, 130);
    assert_eq!(w.filename, "f.txt");
}

#[test]
fn writer_of_empty_total_stays_silent() {
    let mut w = ProgressWriter::new(0, "f".to_string());
    assert_eq!(w.record(10), None);
    assert_eq!(w.bytes_written, 10);
}

#[test]
fn reader_reports_capped_fractions() {
    let mut r = ProgressReader::new(8, "a.gz".to_string());
    assert_eq!(r.record(4), Some(Percent { num: 4, den: 8 }));
    assert_eq!(r.record(0), Some(Percent { num: 4, den: 8 }));
    assert_eq!(r.record(9), Some(Percent { num: 8, den: 8 }));
    let mut z = ProgressReader::new(0, "a.gz".to_string());
    assert_eq!(z.record(3), None);
    let mut big = ProgressReader::new(1, "a".to_string());
    big.bytes_read = u64::MAX - 1;
    assert_eq!(big.record(5), Some(Percent { num: 1, den: 1 }));
    assert_eq!(big.bytes_read, u64::MAX);
}

#[test]
fn formats_are_read_from_names() {
    assert_eq!(detect_archive_format(&fs(&["/", "a.tar.gz"])).unwrap(), CompressionType::TarGz);
    assert_eq!(detect_archive_format(&fs(&["/", "a.tgz"])).unwrap(), CompressionType::TarGz);
    assert_eq!(detect_archive_format(&fs(&["/", "a.tar.br"])).unwrap(), CompressionType::TarBr);
    assert_eq!(detect_archive_format(&fs(&["/", "a.zip"])).unwrap(), CompressionType::Zip);
    assert_eq!(detect_archive_format(&fs(&["/", "a.gzip"])).unwrap(), CompressionType::Gz);
    assert_eq!(detect_archive_format(&fs(&["/", "a.br"])).unwrap(), CompressionType::Br);
    assert_eq!(detect_archive_format(&fs(&["/", "a.bzip2"])).unwrap(), CompressionType::Bzip2);
    match detect_archive_format(&fs(&["/", "a.rar"])) {
        Err(ArchiveError::UnsupportedFormat(e)) => assert_eq!(e, "rar"),
        other => panic!("unexpected {:?}", other),
    }
    assert!(matches!(detect_archive_format(&fs(&["/", "A.ZIP"])), Err(ArchiveError::UnsupportedFormat(_))));
}

#[test]
fn archive_names_are_recognised() {
    assert!(is_compressed_file(&fs(&["/", "x.tar.gz"])));
    assert!(is_compressed_file(&fs(&["/", "x.tgz"])));
    assert!(!is_compressed_file(&fs(&["/", "x.rar"])));
    assert!(is_compressed_file(&fs(&["/", "x.zip"])));
    assert!(is_compressed_file(&fs(&["/", "x.gzip"])));
    assert!(is_compressed_file(&fs(&["/", "x.bz2"])));
    assert!(!is_compressed_file(&fs(&["/", "x.txt"])));
    assert!(!is_compressed_file(&fs(&["/", ".gz"])));
    assert!(!is_compressed_file(&fs(&["/"])));
}

#[test]
fn entries_that_climb_out_are_refused() {
    let out = fs(&["/", "out"]);
    assert!(entry_target(&out, &fs(&["..", "evil"])).is_none());
    assert!(entry_target(&out, &fs(&["a", "..", "..", "evil"])).is_none());
    assert!(entry_target(&out, &fs(&["/", "etc"])).is_none());
    let ok = entry_target(&out, &fs(&["a", "..", "b.txt"])).unwrap();
    assert_eq!(ok.parts.len(), 5);
    let t = entry_target(&out, &fs(&["a", "b.txt"])).unwrap();
    match &t.parts[3] {
        PathPart::Normal(s) => assert_eq!(s, "b.txt"),
        _ => panic!("wrong component"),
    }
}

#[test]
fn extraction_reports_count_entries_then_complete() {
    assert_eq!(
        extraction_reports(3),
        vec![Percent { num: 0, den: 3 }, Percent { num: 1, den: 3 }, Percent { num: 2, den: 3 }, Percent { num: 1, den: 1 }]
    );
    assert_eq!(extraction_reports(0), vec![Percent { num: 1, den: 1 }]);
}

#[test]
fn input_counts_admitted_by_kind() {
    assert!(CompressionType::Zip.admits_file_count(5));
    assert!(CompressionType::TarBr.admits_file_count(0));
    assert!(CompressionType::Gz.admits_file_count(1));
    assert!(CompressionType::Gz.admits_file_count(0));
    assert!(!CompressionType::Bzip2.admits_file_count(2));
}

#[test]
fn extraction_progress_counts_entries() {
    assert_eq!(entry_progress(0, 4), Percent { num: 0, den: 4 });
    assert_eq!(entry_progress(3, 4), Percent { num: 3, den: 4 });
    assert_eq!(Percent::complete(), Percent { num: 1, den: 1 });
}

use std::collections::HashMap;
use std::io::{Cursor, Read, Write};
use tauzip::engine::{ArchiveError, TarAction, TarCodec};
use tauzip::facade::{plan_compress, CompressPlan};
use tauzip::kind::CompressionType;
use tauzip::naming::{gz_output_name, recover_name};
use tauzip::path::{FsPath, PathPart};
use tauzip::progress::Percent;
use tauzip::size::InputNode;
use tauzip::zipplan::ZipAction;

fn fs(s: &str) -> FsPath {
    let mut parts = vec![PathPart::RootDir];
    for n in s.split('/').filter(|n| !n.is_empty()) {
        parts.push(PathPart::Normal(n.to_string()));
    }
    FsPath { parts }
}

fn key(p: &FsPath) -> String {
    p.parts
        .iter()
        .filter_map(|c| match c {
            PathPart::Normal(s) => Some(s.clone()),
            _ => None,
        })
        .collect::<Vec<_>>()
        .join("/")
}

fn file(path: &str, size: u64) -> InputNode {
    InputNode::File { path: fs(path), size }
}

fn le(a: &Percent, b: &Percent) -> bool {
    (a.num as u128) * (b.den as u128) <= (b.num as u128) * (a.den as u128)
}

fn zip_reports(plan: &[ZipAction]) -> Vec<Percent> {
    plan.iter()
        .filter_map(|a| match a {
            ZipAction::Report { percent, .. } => Some(*percent),
            _ => None,
        })
        .collect()
}

fn sample_tree() -> Vec<InputNode> {
    let sub = InputNode::Dir { path: fs("/r/a/sub"), children: vec![file("/r/a/sub/y.bin", 3)] };
    let a = InputNode::Dir { path: fs("/r/a"), children: vec![file("/r/a/x.txt", 5), sub] };
    vec![a, file("/r/b.txt", 2)]
}

#[test]
fn single_stream_kinds_refuse_several_inputs() {
    let inputs = vec![file("/r/a.txt", 1), file("/r/b.txt", 1)];
    for k in [CompressionType::Gz, CompressionType::Gzip, CompressionType::Br, CompressionType::Bzip2] {
        assert!(matches!(plan_compress(&inputs, k), Err(ArchiveError::UnsupportedMultiInput)));
    }
    assert!(matches!(plan_compress(&inputs, CompressionType::Zip), Ok(CompressPlan::Zip(_))));
}

#[test]
fn single_stream_kinds_need_one_regular_file() {
    assert!(matches!(plan_compress(&vec![], CompressionType::Br), Err(ArchiveError::NoInput)));
    let dir = vec![InputNode::Dir { path: fs("/r/d"), children: vec![] }];
    assert!(matches!(plan_compress(&dir, CompressionType::Gz), Err(ArchiveError::NotAFile)));
    match plan_compress(&vec![file("/r/notes.md", 9)], CompressionType::Gz) {
        Ok(CompressPlan::Stream { kind, source, name, header_name, total }) => {
            assert_eq!(kind, CompressionType::Gz);
            assert_eq!(key(&source), "r/notes.md");
            assert_eq!(name, "notes.md");
            assert_eq!(header_name.as_deref(), Some("notes.md"));
            assert_eq!(total, 9);
        },
        other => panic!("unexpected {:?}", other),
    }
}

#[test]
fn size_overflow_is_refused() {
    let inputs = vec![file("/r/a", u64::MAX), file("/r/b", 1)];
    assert!(matches!(plan_compress(&inputs, CompressionType::Zip), Err(ArchiveError::SizeOverflow)));
    assert!(matches!(plan_compress(&inputs, CompressionType::TarGz), Err(ArchiveError::SizeOverflow)));
}

#[test]
fn zip_plan_walks_directories_in_order() {
    let plan = match plan_compress(&sample_tree(), CompressionType::Zip) {
        Ok(CompressPlan::Zip(p)) => p,
        other => panic!("unexpected {:?}", other),
    };
    let entries: Vec<String> = plan
        .iter()
        .filter_map(|a| match a {
            ZipAction::AddFile { entry_name, .. } => Some(entry_name.clone()),
            _ => None,
        })
        .collect();
    assert_eq!(entries, vec!["a/x.txt", "a/sub/y.bin", "b.txt"]);
    let reports = zip_reports(&plan);
    assert_eq!(
        reports,
        vec![
            Percent { num: 0, den: 10 },
            Percent { num: 5, den: 10 },
            Percent { num: 8, den: 10 },
            Percent { num: 8, den: 10 },
            Percent { num: 10, den: 10 },
            Percent { num: 1, den: 1 },
        ]
    );
    match plan.last() {
        Some(ZipAction::Report { name, .. }) => assert_eq!(name, "Complete"),
        _ => panic!("no final report"),
    }
}

#[test]
fn zip_progress_never_goes_backwards() {
    let plan = match plan_compress(&sample_tree(), CompressionType::Zip) {
        Ok(CompressPlan::Zip(p)) => p,
        other => panic!("unexpected {:?}", other),
    };
    let reports = zip_reports(&plan);
    for w in reports.windows(2) {
        assert!(le(&w[0], &w[1]));
    }
    assert_eq!(*reports.last().unwrap(), Percent { num: 1, den: 1 });
}

#[test]
fn zip_progress_by_inputs_when_all_empty() {
    let inputs = vec![
        InputNode::Dir { path: fs("/r/d"), children: vec![] },
        InputNode::Dir { path: fs("/r/e"), children: vec![] },
    ];
    let plan = match plan_compress(&inputs, CompressionType::Zip) {
        Ok(CompressPlan::Zip(p)) => p,
        other => panic!("unexpected {:?}", other),
    };
    assert_eq!(
        zip_reports(&plan),
        vec![Percent { num: 0, den: 2 }, Percent { num: 1, den: 2 }, Percent { num: 1, den: 1 }]
    );
}

#[test]
fn zip_progress_by_inputs_when_files_are_empty() {
    let inputs = vec![file("/r/a.txt", 0), file("/r/b.txt", 0)];
    let plan = match plan_compress(&inputs, CompressionType::Zip) {
        Ok(CompressPlan::Zip(p)) => p,
        other => panic!("unexpected {:?}", other),
    };
    let reports = zip_reports(&plan);
    assert_eq!(
        reports,
        vec![Percent { num: 0, den: 2 }, Percent { num: 1, den: 2 }, Percent { num: 1, den: 1 }]
    );
    for w in reports.windows(2) {
        assert!(le(&w[0], &w[1]));
    }
    let added = plan.iter().filter(|a| matches!(a, ZipAction::AddFile { .. })).count();
    assert_eq!(added, 2);
}

#[test]
fn tar_entries_are_relative_to_the_common_base() {
    let inputs = vec![file("/a/b/c.txt", 1), file("/a/b/d/e.txt", 2)];
    let actions = match plan_compress(&inputs, CompressionType::TarGz) {
        Ok(CompressPlan::Tar { codec, actions }) => {
            assert_eq!(codec, TarCodec::Gzip);
            actions
        },
        other => panic!("unexpected {:?}", other),
    };
    let names: Vec<String> = actions
        .iter()
        .filter_map(|a| match a {
            TarAction::AppendFile { name, .. } => Some(name.clone()),
            _ => None,
        })
        .collect();
    assert_eq!(names, vec!["c.txt", "d/e.txt"]);
}

#[test]
fn tar_plan_appends_each_input_whole() {
    let plan = match plan_compress(&sample_tree(), CompressionType::TarBr) {
        Ok(CompressPlan::Tar { codec, actions }) => {
            assert_eq!(codec, TarCodec::Brotli);
            actions
        },
        other => panic!("unexpected {:?}", other),
    };
    assert_eq!(plan.len(), 5);
    match &plan[1] {
        TarAction::AppendDir { source, name } => {
            assert_eq!(key(source), "r/a");
            assert_eq!(name, "a");
        },
        other => panic!("unexpected {:?}", other),
    }
    match &plan[2] {
        TarAction::Report { percent, name } => {
            assert_eq!(*percent, Percent { num: 8, den: 10 });
            assert_eq!(name, "b.txt");
        },
        other => panic!("unexpected {:?}", other),
    }
    match &plan[3] {
        TarAction::AppendFile { name, .. } => assert_eq!(name, "b.txt"),
        other => panic!("unexpected {:?}", other),
    }
    match &plan[4] {
        TarAction::Report { percent, name } => {
            assert_eq!(*percent, Percent { num: 1, den: 1 });
            assert_eq!(name, "Complete");
        },
        other => panic!("unexpected {:?}", other),
    }
}

#[test]
fn zip_round_trip_keeps_bytes_and_relative_names() {
    let mut content: HashMap<String, Vec<u8>> = HashMap::new();
    content.insert("r/a/x.txt".to_string(), b"hello".to_vec());
    content.insert("r/a/sub/y.bin".to_string(), vec![0, 255, 7]);
    content.insert("r/b.txt".to_string(), b"hi".to_vec());
    let plan = match plan_compress(&sample_tree(), CompressionType::Zip) {
        Ok(CompressPlan::Zip(p)) => p,
        other => panic!("unexpected {:?}", other),
    };
    let mut writer = zip::ZipWriter::new(Cursor::new(Vec::new()));
    let options = zip::write::FileOptions::default()
        .compression_method(zip::CompressionMethod::Deflated)
        .unix_permissions(0o755);
    for action in &plan {
        if let ZipAction::AddFile { source, entry_name } = action {
            writer.start_file(entry_name.clone(), options).unwrap();
            writer.write_all(&content[&key(source)]).unwrap();
        }
    }
    let bytes = writer.finish().unwrap().into_inner();
    let mut archive = zip::ZipArchive::new(Cursor::new(bytes)).unwrap();
    let mut found = HashMap::new();
    for i in 0..archive.len() {
        let mut f = archive.by_index(i).unwrap();
        assert_eq!(f.unix_mode().map(|m| m & 0o777), Some(0o755));
        let mut data = Vec::new();
        f.read_to_end(&mut data).unwrap();
        found.insert(f.name().to_string(), data);
    }
    assert_eq!(found.len(), 3);
    assert_eq!(found["a/x.txt"], b"hello".to_vec());
    assert_eq!(found["a/sub/y.bin"], vec![0, 255, 7]);
    assert_eq!(found["b.txt"], b"hi".to_vec());
}

#[test]
fn gzip_round_trip_recovers_bytes_and_name() {
    let data = b"some text that is compressed and back again".to_vec();
    let header = match plan_compress(&vec![file("/r/notes.md", data.len() as u64)], CompressionType::Gzip) {
        Ok(CompressPlan::Stream { header_name, .. }) => header_name.unwrap(),
        other => panic!("unexpected {:?}", other),
    };
    let mut enc = flate2::GzBuilder::new()
        .filename(header.as_str())
        .write(Vec::new(), flate2::Compression::default());
    enc.write_all(&data).unwrap();
    let packed = enc.finish().unwrap();
    let mut dec = flate2::read::GzDecoder::new(packed.as_slice());
    let mut out = Vec::new();
    dec.read_to_end(&mut out).unwrap();
    assert_eq!(out, data);
    let stored = dec.header().and_then(|h| h.filename()).map(|b| b.to_vec());
    let name = gz_output_name(stored.as_deref(), &fs("/r/renamed.gz"));
    assert_eq!(name, "notes.md");
}

#[test]
fn brotli_round_trip_recovers_bytes_and_name() {
    let data: Vec<u8> = (0..2000u32).map(|i| (i % 251) as u8).collect();
    let mut packed = Vec::new();
    {
        let mut enc = brotli::CompressorWriter::new(&mut packed, 4096, 6, 22);
        enc.write_all(&data).unwrap();
        enc.flush().unwrap();
    }
    let mut out = Vec::new();
    brotli::Decompressor::new(packed.as_slice(), 4096).read_to_end(&mut out).unwrap();
    assert_eq!(out, data);
    assert_eq!(recover_name("table.csv.br"), "table.csv");
}

#[test]
fn bzip2_round_trip_recovers_bytes_and_name() {
    let data = b"bzip2 keeps every byte".repeat(20);
    let mut enc = bzip2::write::BzEncoder::new(Vec::new(), bzip2::Compression::default());
    enc.write_all(&data).unwrap();
    let packed = enc.finish().unwrap();
    let mut out = Vec::new();
    bzip2::read::BzDecoder::new(packed.as_slice()).read_to_end(&mut out).unwrap();
    assert_eq!(out, data);
    assert_eq!(recover_name("notes.bz2"), "notes.txt");
}

use std::path::{Component, Path};
use tauzip::kind::CompressionType;
use tauzip::naming::{
    fallback_filename_from_compressed, generate_output_path, gz_output_name, recover_name,
    resolve_output_path,
};
use tauzip::path::{base_dir_for, entry_name, find_common_base_dir, find_common_path, FsPath, PathPart};
use tauzip::unique::{decimal_string, generate_output_dir, get_unique_name, make_numbered_name};

fn fs(s: &str) -> FsPath {
    let parts = Path::new(s)
        .components()
        .map(|c| match c {
            Component::Prefix(p) => PathPart::Prefix(p.as_os_str().to_string_lossy().to_string()),
            Component::RootDir => PathPart::RootDir,
            Component::CurDir => PathPart::CurDir,
            Component::ParentDir => PathPart::ParentDir,
            Component::Normal(n) => PathPart::Normal(n.to_string_lossy().to_string()),
        })
        .collect();
    FsPath { parts }
}

fn show(p: &FsPath) -> String {
    let mut out = String::new();
    for (i, part) in p.parts.iter().enumerate() {
        let text = match part {
            PathPart::Prefix(s) => s.clone(),
            PathPart::RootDir => "/".to_string(),
            PathPart::CurDir => ".".to_string(),
            PathPart::ParentDir => "..".to_string(),
            PathPart::Normal(s) => s.clone(),
        };
        if i > 0 && !out.ends_with('/') {
            out.push('/');
        }
        out.push_str(&text);
    }
    out
}

fn names(v: &[&str]) -> Vec<String> {
    v.iter().map(|s| s.to_string()).collect()
}

#[test]
fn common_base_of_siblings_and_nested() {
    let files = vec![fs("/a/b/c.txt"), fs("/a/b/d/e.txt")];
    let base = find_common_base_dir(&files).unwrap();
    assert_eq!(show(&base), "/a/b");
}

#[test]
fn common_base_falls_back_for_different_drives() {
    let c = FsPath {
        parts: vec![
            PathPart::Prefix("C:".to_string()),
            PathPart::RootDir,
            PathPart::Normal("docs".to_string()),
            PathPart::Normal("a.txt".to_string()),
        ],
    };
    let d = FsPath {
        parts: vec![
            PathPart::Prefix("D:".to_string()),
            PathPart::RootDir,
            PathPart::Normal("b.txt".to_string()),
        ],
    };
    let base = find_common_base_dir(&vec![c, d]).unwrap();
    assert_eq!(show(&base), ".");
}

#[test]
fn common_base_falls_back_for_unrelated_relative_paths() {
    let base = find_common_base_dir(&vec![fs("x/a.txt"), fs("y/b.txt")]).unwrap();
    assert_eq!(show(&base), ".");
}

#[test]
fn common_base_of_no_inputs_is_none() {
    assert!(find_common_base_dir(&vec![]).is_none());
}

#[test]
fn common_path_of_disjoint_paths_is_none() {
    assert!(find_common_path(&fs("a/b"), &fs("c/d")).is_none());
    assert_eq!(show(&find_common_path(&fs("/a/b/c"), &fs("/a/b/x")).unwrap()), "/a/b");
}

#[test]
fn base_dir_of_single_input_is_its_parent() {
    assert_eq!(show(&base_dir_for(&vec![fs("/home/u/project")])), "/home/u");
    assert_eq!(show(&base_dir_for(&vec![])), ".");
}

#[test]
fn entry_names_are_relative_with_forward_slashes() {
    assert_eq!(entry_name(&fs("/a/b/d/e.txt"), &fs("/a/b")), "d/e.txt");
    assert_eq!(entry_name(&fs("/a/b/c.txt"), &fs("/a/b")), "c.txt");
    assert_eq!(entry_name(&fs("/other/z.txt"), &fs("/a/b")), "z.txt");
    assert_eq!(entry_name(&fs("/a/b/we\\ird.txt"), &fs("/a/b")), "we/ird.txt");
    assert_eq!(entry_name(&fs("/a/b/../x.txt"), &fs("/a/b")), "x.txt");
}

#[test]
fn stems_and_extensions_follow_the_last_dot() {
    let p = fs("/d/report.tar.gz");
    assert_eq!(p.file_stem().unwrap(), "report.tar");
    assert_eq!(p.extension().unwrap(), "gz");
    let hidden = fs("/d/.gz");
    assert_eq!(hidden.file_stem().unwrap(), ".gz");
    assert!(hidden.extension().is_none());
    assert!(fs("/").file_name().is_none());
    assert!(fs("/").parent().is_none());
}

#[test]
fn recover_name_keeps_an_inner_extension() {
    assert_eq!(recover_name("notes.txt.gz"), "notes.txt");
}

#[test]
fn recover_name_adds_txt_without_one() {
    assert_eq!(recover_name("data.gz"), "data.txt");
    assert_eq!(recover_name("archive.bz2"), "archive.txt");
    assert_eq!(recover_name("pic.png.br"), "pic.png");
    assert_eq!(recover_name("x.gzip"), "x.txt");
    assert_eq!(recover_name("x.bzip2"), "x.txt");
}

#[test]
fn recover_name_without_suffix_is_the_stem() {
    assert_eq!(recover_name("weird"), "weird");
    assert_eq!(recover_name("weird.zip"), "weird");
    assert_eq!(recover_name(".gz"), ".gz");
    assert_eq!(recover_name("DATA.GZ"), "DATA");
}

#[test]
fn fallback_name_uses_the_archive_file_name() {
    assert_eq!(fallback_filename_from_compressed(&fs("/tmp/log.gz")), "log.txt");
    assert_eq!(fallback_filename_from_compressed(&fs("/")), "");
}

#[test]
fn gz_output_name_prefers_the_header() {
    let archive = fs("/tmp/data.gz");
    assert_eq!(gz_output_name(Some(b"orig.csv".as_slice()), &archive), "orig.csv");
    assert_eq!(gz_output_name(Some([0xffu8, 0xfe].as_slice()), &archive), "data.txt");
    assert_eq!(gz_output_name(None, &archive), "data.txt");
}

#[test]
fn default_output_path_for_one_and_many_inputs() {
    let one = generate_output_path(&vec![fs("/d/report.txt")], CompressionType::Zip);
    assert_eq!(show(&one), "/d/report.zip");
    let many = generate_output_path(&vec![fs("/d/a.txt"), fs("/e/b.txt")], CompressionType::TarGz);
    assert_eq!(show(&many), "/d/archive.tar.gz");
}

#[test]
fn output_name_is_resolved_beside_the_first_input() {
    let files = vec![fs("/d/a.txt")];
    assert_eq!(show(&resolve_output_path(&files, &fs("out.zip"))), "/d/out.zip");
    assert_eq!(show(&resolve_output_path(&files, &fs("/x/out.zip"))), "/x/out.zip");
    assert_eq!(show(&resolve_output_path(&vec![], &fs("out.zip"))), "out.zip");
}

#[test]
fn unique_name_is_the_path_itself_when_free() {
    let r = get_unique_name(&fs("/tmp/out"), &names(&["other"]));
    assert_eq!(show(&r), "/tmp/out");
}

#[test]
fn unique_name_counts_from_two() {
    let r = get_unique_name(&fs("/tmp/out"), &names(&["out"]));
    assert_eq!(show(&r), "/tmp/out (2)");
}

#[test]
fn unique_name_skips_taken_numbers() {
    let r = get_unique_name(&fs("/tmp/out"), &names(&["out (2)", "out", "x", "out (3)"]));
    assert_eq!(show(&r), "/tmp/out (4)");
}

#[test]
fn unique_name_keeps_the_extension() {
    let r = get_unique_name(&fs("/tmp/a.txt"), &names(&["a.txt"]));
    assert_eq!(show(&r), "/tmp/a (2).txt");
    let rel = get_unique_name(&fs("out"), &names(&["out"]));
    assert_eq!(show(&rel), "out (2)");
}

#[test]
fn unique_name_of_a_nameless_path_is_the_path() {
    let r = get_unique_name(&fs("/"), &names(&["x"]));
    assert_eq!(show(&r), "/");
}

#[test]
fn output_dir_without_a_stem_is_numbered() {
    let r = generate_output_dir(&fs("/w/.."), &names(&[]));
    assert_eq!(show(&r), "/w/ (2)");
    let r = generate_output_dir(&fs("/w/.."), &names(&[" (2)"]));
    assert_eq!(show(&r), "/w/ (3)");
}

#[test]
fn output_dir_is_named_after_the_archive_stem() {
    assert_eq!(show(&generate_output_dir(&fs("/x/data.zip"), &names(&[]))), "/x/data");
    let r = generate_output_dir(&fs("/x/data.tar.gz"), &names(&["data.tar", "data.tar (2)"]));
    assert_eq!(show(&r), "/x/data.tar (3)");
}

#[test]
fn numbers_are_written_in_decimal() {
    assert_eq!(decimal_string(0), "0");
    assert_eq!(decimal_string(7), "7");
    assert_eq!(decimal_string(10), "10");
    assert_eq!(decimal_string(1234567890), "1234567890");
    assert_eq!(make_numbered_name("out", 12, None), "out (12)");
    assert_eq!(make_numbered_name("a", 2, Some("txt")), "a (2).txt");
}

use archive_transcode::config::ArchiveType;
use archive_transcode::path::components;
use archive_transcode::paths::has_output_path;
use archive_transcode::paths::output_archive_path;
use archive_transcode::paths::sanitize_path;
use std::path::Component;
use std::path::Path;
use std::path::PathBuf;

const SOURCES: [&str; 30] = [
    "", ".", "..", "a", "a.zip", "a/b.zip", "a/b.tar.gz", "./a/b.zip", "../a/b.zip", "a/../b.zip",
    "a/../../b.zip", "../../..", "a//b///c.rar", "a/./b.zip", "a/b/", "a/b/.", ".hidden",
    "dir.d/file", "/a.zip", "/a/b.zip", "/a/b/", "/a/b/.", "/a/b/..", "/a/..", "//a//b.zip",
    "/é/ü.zip", "é/../ü.zip", "a/..b", "/x/.hidden", "/x/y.tar.gz",
];

fn sanitize_with_std(path: &Path) -> PathBuf {
    if path.is_absolute() {
        path.components().skip(1).collect()
    } else {
        path.components().filter(|c| !matches!(c, Component::ParentDir)).collect()
    }
}

fn set_extension(path: &Path, ext: &str) -> PathBuf {
    let mut changed = path.to_path_buf();
    changed.set_extension(ext);
    changed
}

#[test]
fn sanitize_path_agrees_with_std() {
    for s in SOURCES {
        let expected = sanitize_with_std(Path::new(s));
        assert_eq!(sanitize_path(s), expected.to_str().unwrap(), "{s:?}");
    }
}

#[test]
fn sanitize_path_examples() {
    assert_eq!(sanitize_path("a/b.zip"), "a/b.zip");
    assert_eq!(sanitize_path("../a/../b.zip"), "a/b.zip");
    assert_eq!(sanitize_path("./a//b.zip"), "./a/b.zip");
    assert_eq!(sanitize_path("/a/../b.zip"), "a/../b.zip");
    assert_eq!(sanitize_path("../.."), "");
    assert_eq!(sanitize_path(""), "");
}

#[test]
fn relative_sources_keep_their_directories() {
    for s in SOURCES {
        if Path::new(s).is_absolute() {
            continue;
        }
        for archive in [ArchiveType::Cbz, ArchiveType::Zip, ArchiveType::Cb7, ArchiveType::SevenZip] {
            let ext = archive.to_string();
            let subpath = set_extension(&sanitize_with_std(Path::new(s)), &ext);
            let expected = Path::new("out/dir").join(subpath);
            assert!(has_output_path(s));
            assert_eq!(
                output_archive_path(s, "out/dir", archive),
                expected.to_str().unwrap(),
                "{s:?}"
            );
        }
    }
}

#[test]
fn absolute_sources_give_their_file_name() {
    assert_eq!(output_archive_path("/a/b.zip", "out", ArchiveType::Cbz), "out/b.cbz");
    assert_eq!(output_archive_path("/a/b.tar.gz", "out", ArchiveType::Zip), "out/b.tar.zip");
    assert_eq!(output_archive_path("/a/b/", "out/", ArchiveType::Cb7), "out/b.cb7");
    assert_eq!(output_archive_path("/a.rar", "", ArchiveType::SevenZip), "a.7z");
    assert_eq!(output_archive_path("//a//b.zip", "/out", ArchiveType::Cbz), "/out/b.cbz");
}

#[test]
fn absolute_sources_fall_back_to_the_name_of_the_parent() {
    assert_eq!(output_archive_path("/a/b/..", "out", ArchiveType::Cbz), "out/b.cbz");
    assert_eq!(output_archive_path("/a.d/..", "out", ArchiveType::Cbz), "out/a.cbz");
}

#[test]
fn sources_without_any_name_have_no_output_path() {
    assert!(!has_output_path("/"));
    assert!(!has_output_path("//"));
    assert!(!has_output_path("/.."));
    assert!(!has_output_path("/a/../.."));
    assert!(has_output_path("/a/.."));
    assert!(has_output_path("/a"));
    assert!(has_output_path(""));
    assert!(has_output_path("../.."));
}

#[test]
fn relative_source_examples() {
    assert_eq!(output_archive_path("a/b.zip", "out", ArchiveType::Cbz), "out/a/b.cbz");
    assert_eq!(output_archive_path("../../b.rar", "out", ArchiveType::Zip), "out/b.zip");
    assert_eq!(output_archive_path("a/../../etc/x.zip", "out", ArchiveType::Cb7), "out/a/etc/x.cb7");
    assert_eq!(output_archive_path("b", "", ArchiveType::SevenZip), "b.7z");
    assert_eq!(output_archive_path("a/..b", "out", ArchiveType::Cbz), "out/a/..cbz");
}

fn assert_within(output: &str, outdir: &str) {
    let all = components(output);
    let dir = components(outdir);
    assert!(all.len() >= dir.len(), "{output:?} {outdir:?}");
    assert_eq!(&all[..dir.len()], &dir[..], "{output:?} {outdir:?}");
    assert!(all[dir.len()..].iter().all(|part| *part != ".."), "{output:?} {outdir:?}");
}

#[test]
fn output_stays_within_the_output_directory() {
    for s in SOURCES {
        if !has_output_path(s) {
            continue;
        }
        for outdir in ["out", "out/", "/tmp/out", "", ".", "..", "a/../b", "./x/"] {
            let output = output_archive_path(s, outdir, ArchiveType::Cbz);
            assert_within(&output, outdir);
        }
    }
}

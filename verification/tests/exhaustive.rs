use archive_transcode::config::ArchiveType;
use archive_transcode::order::Sign;
use archive_transcode::path::components;
use archive_transcode::path::extension;
use archive_transcode::path::file_name;
use archive_transcode::path::first_part;
use archive_transcode::path::is_absolute;
use archive_transcode::path::join;
use archive_transcode::path::parent_name;
use archive_transcode::path::with_extension;
use archive_transcode::paths::has_output_path;
use archive_transcode::paths::output_archive_path;
use archive_transcode::paths::sanitize_path;
use archive_transcode::resolve::path_order;
use archive_transcode::resolve::resolve;
use std::cmp::Ordering;
use std::path::Component;
use std::path::Path;
use std::path::PathBuf;

/// Every text of at most `longest` characters over the letters of `letters`.
fn texts(letters: &str, longest: usize) -> Vec<String> {
    let mut all = vec![String::new()];
    let mut last = vec![String::new()];
    for _ in 0..longest {
        let mut next = Vec::new();
        for text in &last {
            for letter in letters.chars() {
                let mut longer = text.clone();
                longer.push(letter);
                next.push(longer);
            }
        }
        all.extend(next.iter().cloned());
        last = next;
    }
    all
}

fn sanitize_with_std(path: &Path) -> PathBuf {
    if path.is_absolute() {
        path.components().skip(1).collect()
    } else {
        path.components().filter(|c| !matches!(c, Component::ParentDir)).collect()
    }
}

fn set_extension(path: &Path, ext: &str) -> PathBuf {
    let mut changed = path.to_path_buf();
    changed.set_extension(ext);
    changed
}

#[test]
fn every_short_path_is_read_as_std_reads_it() {
    for text in texts("a./é", 6) {
        let path = Path::new(&text);
        assert_eq!(is_absolute(&text), path.is_absolute(), "{text:?}");
        assert_eq!(file_name(&text), path.file_name().and_then(|n| n.to_str()), "{text:?}");
        assert_eq!(extension(&text), path.extension().and_then(|n| n.to_str()), "{text:?}");
        let parts: Vec<&str> = path.iter().map(|part| part.to_str().unwrap()).collect();
        assert_eq!(components(&text), parts, "{text:?}");
        assert_eq!(first_part(&text), parts.first().copied(), "{text:?}");
        let parent = path.parent().and_then(|p| p.file_name()).and_then(|n| n.to_str());
        assert_eq!(parent_name(&text), parent, "{text:?}");
    }
}

#[test]
fn every_short_path_gets_its_extension_as_std_sets_it() {
    for text in texts("a./", 7) {
        for ext in ["cbz", ""] {
            let expected = set_extension(Path::new(&text), ext);
            assert_eq!(with_extension(&text, ext), expected.to_str().unwrap(), "{text:?}");
        }
    }
}

#[test]
fn every_short_path_is_sanitized_as_std_does() {
    for text in texts("a./", 7) {
        let expected = sanitize_with_std(Path::new(&text));
        assert_eq!(sanitize_path(&text), expected.to_str().unwrap(), "{text:?}");
    }
}

#[test]
fn every_pair_of_short_paths_is_joined_as_std_joins() {
    let all = texts("a./", 4);
    for base in &all {
        for path in &all {
            let expected = Path::new(base).join(path);
            assert_eq!(join(base, path), expected.to_str().unwrap(), "{base:?} {path:?}");
        }
    }
}

#[test]
fn every_pair_of_short_paths_is_ordered_as_std_orders() {
    let all = texts("a./-", 4);
    for a in &all {
        for b in &all {
            let expected = match Path::new(a).cmp(Path::new(b)) {
                Ordering::Less => Sign::Before,
                Ordering::Equal => Sign::Same,
                Ordering::Greater => Sign::After,
            };
            assert_eq!(path_order(a, b), expected, "{a:?} {b:?}");
        }
    }
}

#[test]
fn short_paths_resolve_as_std_sorts_them() {
    let all = texts("b./a", 4);
    let mut expected: Vec<PathBuf> = all.iter().map(PathBuf::from).collect();
    expected.sort();
    expected.dedup();
    let expected: Vec<&str> = expected.iter().map(|path| path.to_str().unwrap()).collect();
    let (existing, expanded) = all.split_at(all.len() / 3);
    assert_eq!(resolve(&existing.to_vec(), &expanded.to_vec()), expected);
}

fn within(output: &str, outdir: &str) -> bool {
    let all = components(output);
    let dir = components(outdir);
    all.len() >= dir.len() && all[..dir.len()] == dir[..] && all[dir.len()..].iter().all(|p| *p != "..")
}

#[test]
fn every_short_source_stays_within_the_output_directory() {
    let dirs = texts("o./", 3);
    for source in texts("a./", 6) {
        if !has_output_path(&source) {
            assert!(Path::new(&source).is_absolute(), "{source:?}");
            continue;
        }
        for outdir in &dirs {
            let output = output_archive_path(&source, outdir, ArchiveType::Cb7);
            assert!(within(&output, outdir), "{source:?} {outdir:?} {output:?}");
        }
    }
}

#[test]
fn every_short_relative_source_gets_the_path_that_std_gives() {
    for source in texts("a./", 7) {
        if Path::new(&source).is_absolute() {
            continue;
        }
        let subpath = set_extension(&sanitize_with_std(Path::new(&source)), "cbz");
        let expected = Path::new("out").join(subpath);
        assert_eq!(
            output_archive_path(&source, "out", ArchiveType::Cbz),
            expected.to_str().unwrap(),
            "{source:?}"
        );
    }
}

#[test]
fn every_short_absolute_source_with_a_file_name_gets_the_path_that_std_gives() {
    for source in texts("a./", 7) {
        let path = Path::new(&source);
        if !path.is_absolute() {
            continue;
        }
        if let Some(name) = path.file_name() {
            let expected = Path::new("out").join(set_extension(Path::new(name), "zip"));
            assert_eq!(
                output_archive_path(&source, "out", ArchiveType::Zip),
                expected.to_str().unwrap(),
                "{source:?}"
            );
        }
    }
}

use std::path::{Path, PathBuf};

use smallerpixels::{containing_dir_of, is_supported_image, output_path_for};

const SAMPLES: &[&str] = &[
    "photo.jpg",
    "photo.JPG",
    "dir/photo.Jpeg",
    "dir/photo.jpg/",
    "dir//photo.png",
    "./photo.gif",
    "/abs/photo.bmp",
    "/abs/./x/photo.webp",
    "a/..",
    "..",
    ".",
    "",
    "/",
    ".jpg",
    "x.",
    "archive.tar.JPG",
    "a/b/.hidden.png",
    "noext",
    "dir.jpg/file",
    "weird..png",
    "tiff.tiff",
    "root/a/./b/p.png",
    "root//a//b/p.png",
    "root/./a/p.png",
    "root/a/b/./",
    "./x/./y.png",
    "/abs//x/./y.png/",
    ".//a.png",
    "a/.",
    "./.",
    "//",
];

fn std_supported(p: &str) -> bool {
    Path::new(p)
        .extension()
        .and_then(|e| e.to_str())
        .map(|e| ["jpg", "jpeg", "png", "gif", "bmp", "webp"].contains(&e.to_lowercase().as_str()))
        .unwrap_or(false)
}

#[test]
fn supported_check_agrees_with_std_paths() {
    for p in SAMPLES {
        assert_eq!(is_supported_image(p), std_supported(p), "path {p:?}");
    }
}

/// The output path as the desktop app computed it with `std::path`.
fn std_output(input: &str, source_root: &str, output_dir: &str) -> PathBuf {
    let input = Path::new(input);
    let rel = input
        .strip_prefix(source_root)
        .unwrap_or_else(|_| Path::new(input.file_name().unwrap_or_default()));
    let stem = rel.file_stem().unwrap_or_default().to_string_lossy();
    let parent = rel.parent().unwrap_or(Path::new(""));
    Path::new(output_dir).join(parent).join(format!("{stem}.webp"))
}

#[test]
fn output_paths_agree_with_std_paths() {
    let roots = ["", "/abs", "dir", "dir/", "./", "/", "root", "root/a", "root/./a"];
    let outs = ["out", "out/", "/o/p", ""];
    for input in SAMPLES {
        for root in &roots {
            for out in &outs {
                let ours = output_path_for(input, root, out);
                let theirs = std_output(input, root, out);
                assert_eq!(
                    ours,
                    theirs.to_string_lossy(),
                    "input {input:?} root {root:?} out {out:?}"
                );
            }
        }
    }
}

#[test]
fn containing_dirs_agree_with_std_paths() {
    for p in SAMPLES {
        let ours = containing_dir_of(p);
        let theirs = Path::new(p).parent().map(|d| d.to_string_lossy().into_owned());
        assert_eq!(ours, theirs, "path {p:?}");
    }
}

#[test]
fn inner_current_directory_pieces_are_kept_as_written() {
    assert_eq!(output_path_for("root/a/./b/p.png", "root", "o"), "o/a/./b/p.webp");
    assert_eq!(output_path_for("root//a//b/p.png", "root", "o"), "o/a//b/p.webp");
    assert_eq!(containing_dir_of("o/a/./b/p.webp").as_deref(), Some("o/a/./b"));
}

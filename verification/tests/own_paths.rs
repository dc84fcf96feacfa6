use std::path::Path;

use apple_matting_cli::paths::{extension_of, file_name_of, join_paths, parent_of, stem_of};

const SAMPLES: [&str; 34] = [
    "", "/", ".", "..", "./", "a", "a/", "a//b", "a/.", "./a", "a/..", "/x/y.jpg", "a/./",
    ".hidden", "x.tar.gz", "dir/.././f", "//", "/.", "/./", "/a", "/a/", "/a/.", "./.", ".//a",
    "././a", ".a/b", "../a", "a/../", "//a//b//", "/../x", "./a/./b/.", "x/./.", ".x", "./..",
];

#[test]
fn file_names_follow_std() {
    for sample in SAMPLES {
        let expected = Path::new(sample)
            .file_name()
            .map(|name| name.to_string_lossy().into_owned());
        assert_eq!(file_name_of(sample), expected, "{sample:?}");
    }
}

#[test]
fn joins_follow_std() {
    for base in ["", "/", "a", "a/", "/x/y"] {
        for tail in ["b", "/c", "", "d/e"] {
            let expected = Path::new(base).join(tail).to_string_lossy().into_owned();
            assert_eq!(join_paths(base, tail), expected, "{base:?} + {tail:?}");
        }
    }
}

#[test]
fn stems_and_extensions_follow_std() {
    for name in ["a", "a.b", "a.b.c", ".a", ".a.b", "a.", "..", "x.JPG"] {
        let path = Path::new(name);
        let stem = path.file_stem().map(|s| s.to_string_lossy().into_owned());
        let extension = path.extension().map(|s| s.to_string_lossy().into_owned());
        assert_eq!(Some(stem_of(name)), if name == ".." { Some("..".to_string()) } else { stem }, "{name}");
        assert_eq!(extension_of(name), extension, "{name}");
    }
}

#[test]
fn parents_follow_std() {
    for sample in SAMPLES {
        let expected = Path::new(sample)
            .parent()
            .map(|parent| parent.to_string_lossy().into_owned());
        assert_eq!(parent_of(sample), expected, "{sample:?}");
    }
}

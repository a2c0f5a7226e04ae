use gitrx::git::validate_repo_relative_path;
use gitrx::pathname::{
    extension_of, file_name_of, is_absolute, join_path, parent_name_of, split_path, text_of,
};

fn wd() -> &'static str {
    "/repo"
}

#[test]
fn rejects_empty_path() {
    assert!(validate_repo_relative_path(wd(), "", false).is_err());
}

#[test]
fn rejects_absolute_path() {
    assert!(validate_repo_relative_path(wd(), "/etc/passwd", false).is_err());
}

#[test]
fn rejects_parent_traversal() {
    assert!(validate_repo_relative_path(wd(), "../secret", false).is_err());
    assert!(validate_repo_relative_path(wd(), "a/../../b", false).is_err());
    assert!(validate_repo_relative_path(wd(), "sub/..", false).is_err());
}

#[test]
fn rejects_embedded_newline_and_nul() {
    assert!(validate_repo_relative_path(wd(), "a\nb", false).is_err());
    assert!(validate_repo_relative_path(wd(), "a\0b", false).is_err());
    assert!(validate_repo_relative_path(wd(), "trailing\n", false).is_err());
}

#[test]
fn accepts_ordinary_relative_paths() {
    assert!(validate_repo_relative_path(wd(), "src/main.rs", false).is_ok());
    assert!(validate_repo_relative_path(wd(), "a.txt", false).is_ok());
    // Glob metacharacters are legal in a filename — they are literal here.
    assert!(validate_repo_relative_path(wd(), "data[1].txt", false).is_ok());
    // Spaces and unicode are legal.
    assert!(validate_repo_relative_path(wd(), "my file é.txt", false).is_ok());
    // A single leading `./` component is harmless.
    assert!(validate_repo_relative_path(wd(), "./a.txt", false).is_ok());
}

#[test]
fn path_refusals_have_their_exact_texts() {
    let text = |p: &str| validate_repo_relative_path(wd(), p, false).unwrap_err().to_string();
    assert_eq!(text(""), "Path must not be empty");
    assert_eq!(text("a\nb"), "Path must not contain newline or NUL characters");
    assert_eq!(text("/a"), "Path must be relative: /a");
    assert_eq!(text("/../a"), "Path must be relative: /../a");
    assert_eq!(text("a/../b"), "Path must not contain a '..' component: a/../b");
}

/// Every path helper agrees with the standard library.
#[test]
fn components_agree_with_the_standard_library() {
    for p in [
        "", "/", "//", "a", "/a", "a/", "a//b", "./a", "a/./b", ".", "./", "..", "/..", "a/..",
        "/a/b/c", "a/b.rs", ".hidden", "a.tar.gz", "dot.", "/x/foo.git/", "é/ü.txt", "/./a",
        "a/.",
    ] {
        let path = std::path::Path::new(p);
        let own = split_path(p);
        let std_components: Vec<String> = path
            .components()
            .map(|c| match c {
                std::path::Component::RootDir => String::new(),
                other => other.as_os_str().to_str().unwrap().to_string(),
            })
            .collect();
        assert_eq!(own, std_components, "components of {p:?}");
        assert_eq!(
            std::path::Path::new(&text_of(&own, own.len())),
            path,
            "text of {p:?}"
        );
        assert_eq!(is_absolute(p), path.is_absolute(), "absolute {p:?}");
        assert_eq!(
            file_name_of(p).as_deref(),
            path.file_name().map(|n| n.to_str().unwrap()),
            "file name of {p:?}"
        );
        assert_eq!(
            extension_of(p).as_deref(),
            path.extension().map(|n| n.to_str().unwrap()),
            "extension of {p:?}"
        );
        assert_eq!(
            parent_name_of(p).as_deref(),
            path.parent().and_then(|q| q.file_name()).map(|n| n.to_str().unwrap()),
            "parent name of {p:?}"
        );
        for base in ["", "/", "/w", "/w/", "rel"] {
            assert_eq!(
                join_path(base, p),
                std::path::Path::new(base).join(p).to_str().unwrap(),
                "{base:?} joined with {p:?}"
            );
        }
    }
}

/// An accepted path, put under the working directory, stays below it.
#[test]
fn accepted_path_stays_inside() {
    for p in ["src/main.rs", "./a.txt", "a//b/", "x"] {
        assert!(validate_repo_relative_path(wd(), p, false).is_ok());
        let full = split_path(&join_path(wd(), p));
        assert_eq!(&full[..2], &["".to_string(), "repo".to_string()]);
        assert!(full.len() > 2);
        assert!(!full.contains(&"..".to_string()));
    }
}

#[test]
fn drives_and_backslashes_count_on_windows_alone() {
    let text = |p: &str| validate_repo_relative_path(wd(), p, true).unwrap_err().to_string();
    for p in ["C:\\x", "c:x", "Z:", "\\x", "\\\\server\\share\\x", "/x", "C:\\..\\x"] {
        assert_eq!(text(p), format!("Path must be relative: {p}"));
    }
    for p in ["..\\x", "a\\..\\x", "a\\..", "a/..\\x"] {
        assert_eq!(text(p), format!("Path must not contain a '..' component: {p}"));
    }
    for p in ["a\\b", "src/main.rs", "1:x", "a..\\b", "ab:c"] {
        assert!(validate_repo_relative_path(wd(), p, true).is_ok());
    }
    for p in ["C:\\x", "c:x", "\\x", "..\\x", "a\\..\\x"] {
        assert!(validate_repo_relative_path(wd(), p, false).is_ok());
    }
}

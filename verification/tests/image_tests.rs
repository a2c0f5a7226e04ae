use base64::Engine;
use gitrx::error::{AppError, AppResult};
use gitrx::image::{
    check_blob, check_file, mime_from_extension, read_image_data, too_large, FileFacts, ImageData,
    MAX_IMAGE_BYTES,
};

const TINY_PNG: &[u8] = &[
    0x89, 0x50, 0x4E, 0x47, 0x0D, 0x0A, 0x1A, 0x0A, 0x00, 0x00, 0x00, 0x0D, 0x49, 0x48, 0x44, 0x52,
    0x00, 0x00, 0x00, 0x01, 0x00, 0x00, 0x00, 0x01, 0x08, 0x06, 0x00, 0x00, 0x00, 0x1F, 0x15, 0xC4,
    0x89, 0x00, 0x00, 0x00, 0x0A, 0x49, 0x44, 0x41, 0x54, 0x78, 0x9C, 0x63, 0x00, 0x01, 0x00, 0x00,
    0x05, 0x00, 0x01, 0x0D, 0x0A, 0x2D, 0xB4, 0x00, 0x00, 0x00, 0x00, 0x49, 0x45, 0x4E, 0x44, 0xAE,
    0x42, 0x60, 0x82,
];

/// A working tree and an index with one image each.
fn read(path: &str, staged: bool, max_bytes: usize, link: bool) -> AppResult<ImageData> {
    let stat = |full: &str| -> AppResult<FileFacts> {
        assert!(full.starts_with("/repo/"));
        Ok(FileFacts {
            is_symlink: link,
            len: TINY_PNG.len() as u64,
        })
    };
    let read_file = |_: &str| -> AppResult<Vec<u8>> { Ok(TINY_PNG.to_vec()) };
    let blob = |p: &str| -> AppResult<Option<Vec<u8>>> {
        Ok(if p == "absent.png" {
            None
        } else {
            Some(TINY_PNG.to_vec())
        })
    };
    read_image_data(Some("/repo"), path, staged, max_bytes, &stat, &read_file, &blob)
}

#[test]
fn mime_from_extension_allow_list() {
    assert_eq!(mime_from_extension("a/b.png").unwrap(), "image/png");
    assert_eq!(mime_from_extension("x.JPG").unwrap(), "image/jpeg");
    assert_eq!(mime_from_extension("x.jpeg").unwrap(), "image/jpeg");
    assert_eq!(mime_from_extension("x.gif").unwrap(), "image/gif");
    assert_eq!(mime_from_extension("x.webp").unwrap(), "image/webp");
    assert_eq!(mime_from_extension("x.bmp").unwrap(), "image/bmp");
    assert_eq!(mime_from_extension("x.ico").unwrap(), "image/x-icon");
    assert_eq!(mime_from_extension("x.avif").unwrap(), "image/avif");
}

#[test]
fn mime_rejects_non_image_and_extensionless() {
    assert!(mime_from_extension("notes.txt").is_err());
    assert!(mime_from_extension("archive.zip").is_err());
    assert!(mime_from_extension("Makefile").is_err());
}

#[test]
fn mime_refusals_have_their_exact_texts() {
    assert_eq!(
        mime_from_extension("Makefile").unwrap_err().to_string(),
        "File has no extension; not a supported image"
    );
    assert_eq!(
        mime_from_extension("a.ZIP").unwrap_err().to_string(),
        "Unsupported image type: .zip"
    );
}

#[test]
fn image_bytes_are_encoded_in_base64() {
    for staged in [false, true] {
        let data = read("pic.png", staged, MAX_IMAGE_BYTES, false).unwrap();
        assert_eq!(data.mime_type, "image/png");
        let decoded = base64::engine::general_purpose::STANDARD
            .decode(data.base64.as_bytes())
            .unwrap();
        assert_eq!(decoded, TINY_PNG);
        assert_eq!(data.base64.len(), TINY_PNG.len().div_ceil(3) * 4);
    }
}

#[test]
fn links_are_refused() {
    let err = read("link.png", false, MAX_IMAGE_BYTES, true).unwrap_err();
    assert_eq!(
        err.to_string(),
        "Refusing to read 'link.png': it is a symbolic link"
    );
}

#[test]
fn size_limit_holds_on_both_sides() {
    for staged in [false, true] {
        let err = read("big.png", staged, 8, false).unwrap_err();
        assert_eq!(
            err.to_string(),
            "Image is too large (67 bytes); the maximum is 8 bytes"
        );
        assert!(read("big.png", staged, 67, false).is_ok());
    }
}

#[test]
fn a_path_without_staged_version_is_refused() {
    let err = read("absent.png", true, MAX_IMAGE_BYTES, false).unwrap_err();
    assert_eq!(
        err.to_string(),
        "No staged version of 'absent.png' in the index"
    );
}

#[test]
fn nothing_is_read_for_a_file_that_is_no_image() {
    let stat = |_: &str| -> AppResult<FileFacts> { panic!("looked at the file") };
    let read_file = |_: &str| -> AppResult<Vec<u8>> { panic!("read the file") };
    let blob = |_: &str| -> AppResult<Option<Vec<u8>>> { panic!("read the blob") };
    for staged in [false, true] {
        let r = read_image_data(
            Some("/repo"),
            "data.txt",
            staged,
            MAX_IMAGE_BYTES,
            &stat,
            &read_file,
            &blob,
        );
        assert!(r.is_err());
    }
}

#[test]
fn failures_of_the_file_system_are_handed_on() {
    let stat = |_: &str| -> AppResult<FileFacts> { Err(AppError::io("gone")) };
    let read_file = |_: &str| -> AppResult<Vec<u8>> { panic!("read the file") };
    let blob = |_: &str| -> AppResult<Option<Vec<u8>>> { Err(AppError::git("no index")) };
    let r = read_image_data(Some("/r"), "a.png", false, 9, &stat, &read_file, &blob);
    assert_eq!(r.unwrap_err().to_string(), "gone");
    let r = read_image_data(Some("/r"), "a.png", true, 9, &stat, &read_file, &blob);
    assert_eq!(r.unwrap_err().to_string(), "no index");
    let r = read_image_data(None, "a.png", false, 9, &stat, &read_file, &blob);
    assert_eq!(r.unwrap_err().to_string(), "Repository has no working tree");
}

#[test]
fn checks_stand_alone() {
    let facts = |is_symlink, len| FileFacts { is_symlink, len };
    assert!(check_file("a", facts(false, 10), 10).is_ok());
    assert_eq!(
        check_file("a", facts(false, 11), 10).unwrap_err().to_string(),
        too_large(11, 10).to_string()
    );
    assert!(check_file("a", facts(true, 0), 10).is_err());
    assert_eq!(check_blob("a", Some(vec![1, 2]), 2).unwrap(), vec![1, 2]);
    assert!(check_blob("a", Some(vec![1, 2]), 1).is_err());
    assert!(check_blob("a", None, 1).is_err());
}

/// A file that is refused is never read, and nothing is looked at where the path is no image.
#[test]
fn refused_images_are_not_read() {
    let run = |path: &str, link: bool, len: u64| {
        read_image_data(
            Some("/repo"),
            path,
            false,
            8,
            |full: &str| -> AppResult<FileFacts> {
                assert_eq!(full, "/repo/a.png");
                Ok(FileFacts { is_symlink: link, len })
            },
            |_: &str| -> AppResult<Vec<u8>> { panic!("read") },
            |_: &str| -> AppResult<Option<Vec<u8>>> { panic!("blob") },
        )
    };
    assert!(run("a.txt", false, 1).is_err());
    assert!(run("a.png", true, 1).is_err());
    assert!(run("a.png", false, 9).is_err());
}

/// Any limit is accepted for a staged image, also one that nothing reaches.
#[test]
fn staged_images_may_have_no_limit() {
    let image = read("a.png", true, usize::MAX, false).unwrap();
    assert_eq!(
        image.base64,
        base64::engine::general_purpose::STANDARD.encode(TINY_PNG)
    );
}

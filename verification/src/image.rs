//! Images for inline preview: which files count, and how they are handed out.

use crate::error::{outcome, AppError, AppResult, ErrorKind, ErrorView};
use crate::numbers::{decimal, to_decimal};
use crate::pathname::{extension, extension_of, join_path, under};
use crate::text::{join2, join3, lowercase, lowered, owned, same_text};
use base64::Engine;
use vstd::prelude::*;

verus! {

/// The largest image that is handed out, in bytes.
pub const MAX_IMAGE_BYTES: usize = 20 * 1024 * 1024;

/// An image, ready to be shown.
#[derive(Debug, Clone)]
pub struct ImageData {
    /// For example `image/png`; it follows from the file's extension alone.
    pub mime_type: String,
    /// The bytes of the image in padded base64.
    pub base64: String,
}

/// What the file system says of a file, a link not being followed.
#[derive(Debug, Clone, Copy, PartialEq, Eq, Structural)]
pub struct FileFacts {
    pub is_symlink: bool,
    pub len: u64,
}

/// The image type of an extension in lower case.
pub open spec fn mime_of(ext: Seq<char>) -> Option<Seq<char>> {
    if ext == "png"@ {
        Some("image/png"@)
    } else if ext == "jpg"@ || ext == "jpeg"@ {
        Some("image/jpeg"@)
    } else if ext == "gif"@ {
        Some("image/gif"@)
    } else if ext == "webp"@ {
        Some("image/webp"@)
    } else if ext == "bmp"@ {
        Some("image/bmp"@)
    } else if ext == "ico"@ {
        Some("image/x-icon"@)
    } else if ext == "avif"@ {
        Some("image/avif"@)
    } else {
        None
    }
}

/// The image type of a path, or why it has none.
pub open spec fn image_type(path: Seq<char>) -> Result<Seq<char>, ErrorView> {
    match extension(path) {
        None => Err((ErrorKind::Validation, "File has no extension; not a supported image"@)),
        Some(ext) => match mime_of(lowered(ext)) {
            Some(mime) => Ok(mime),
            None => Err((ErrorKind::Validation, "Unsupported image type: ."@ + lowered(ext))),
        },
    }
}

/// The image type of a path. Only the extensions listed are ever read: any other path is refused
/// before a byte of it is.
pub fn mime_from_extension(path: &str) -> (r: AppResult<&'static str>)
    ensures
        match r {
            Ok(mime) => image_type(path@) == Ok::<Seq<char>, ErrorView>(mime@),
            Err(e) => image_type(path@) == Err::<Seq<char>, ErrorView>(e@),
        },
{
    let ext = match extension_of(path) {
        Some(e) => lowercase(e.as_str()),
        None => {
            return Err(AppError::validation("File has no extension; not a supported image"));
        },
    };
    let e = ext.as_str();
    if same_text(e, "png") {
        Ok("image/png")
    } else if same_text(e, "jpg") || same_text(e, "jpeg") {
        Ok("image/jpeg")
    } else if same_text(e, "gif") {
        Ok("image/gif")
    } else if same_text(e, "webp") {
        Ok("image/webp")
    } else if same_text(e, "bmp") {
        Ok("image/bmp")
    } else if same_text(e, "ico") {
        Ok("image/x-icon")
    } else if same_text(e, "avif") {
        Ok("image/avif")
    } else {
        let m = join2("Unsupported image type: .", e);
        Err(AppError::validation(m.as_str()))
    }
}

/// How many characters the padded base64 of some bytes has.
pub open spec fn base64_len(n: nat) -> nat {
    (n + 2) / 3 * 4
}

/// The padded base64 of some bytes, in the standard alphabet.
pub uninterp spec fn base64_text(bytes: Seq<u8>) -> Seq<char>;

/// `base64::engine::general_purpose::STANDARD.encode`: the padded base64 of the bytes, four
/// characters for each three bytes begun. It panics where the text would not fit in memory.
#[verifier::external_body]
fn encode_base64(bytes: &Vec<u8>) -> (r: String)
    requires
        base64_len(bytes@.len()) <= isize::MAX,
    ensures
        r@ == base64_text(bytes@),
        r@.len() == base64_len(bytes@.len()),
{
    base64::engine::general_purpose::STANDARD.encode(bytes)
}

/// The refusal of an image that is too large.
pub open spec fn too_large_text(actual: nat, max_bytes: nat) -> Seq<char> {
    "Image is too large ("@ + decimal(actual) + " bytes); the maximum is "@ + decimal(max_bytes)
        + " bytes"@
}

/// The refusal of an image that is too large.
pub fn too_large(actual: usize, max_bytes: usize) -> (r: AppError)
    ensures
        r@ == (ErrorKind::Validation, too_large_text(actual as nat, max_bytes as nat)),
{
    let a = to_decimal(actual as u64);
    let b = to_decimal(max_bytes as u64);
    let head = join3("Image is too large (", a.as_str(), " bytes); the maximum is ");
    let m = join3(head.as_str(), b.as_str(), " bytes");
    AppError::validation(m.as_str())
}

/// The smaller of a length and the largest one that can be counted here.
pub open spec fn countable(len: u64) -> nat {
    if len <= usize::MAX {
        len as nat
    } else {
        usize::MAX as nat
    }
}

/// Why a file of the working tree is not read: links are never followed, since they may lead out
/// of the repository, and a file over the limit is never loaded.
pub open spec fn file_refusal(path: Seq<char>, facts: FileFacts, max_bytes: usize) -> Option<
    ErrorView,
> {
    if facts.is_symlink {
        Some((ErrorKind::Validation, "Refusing to read '"@ + path + "': it is a symbolic link"@))
    } else if facts.len > max_bytes {
        Some((ErrorKind::Validation, too_large_text(countable(facts.len), max_bytes as nat)))
    } else {
        None
    }
}

/// Whether a file of the working tree may be read.
pub fn check_file(path: &str, facts: FileFacts, max_bytes: usize) -> (r: AppResult<()>)
    ensures
        outcome(r) == (match file_refusal(path@, facts, max_bytes) {
            Some(e) => Err(e),
            None => Ok(()),
        }),
{
    if facts.is_symlink {
        let m = join3("Refusing to read '", path, "': it is a symbolic link");
        return Err(AppError::validation(m.as_str()));
    }
    if facts.len > max_bytes as u64 {
        let actual: usize = if facts.len <= usize::MAX as u64 {
            facts.len as usize
        } else {
            usize::MAX
        };
        return Err(too_large(actual, max_bytes));
    }
    Ok(())
}

/// What a staged image comes to: the blob recorded in the index, within the limit.
pub open spec fn staged_outcome(path: Seq<char>, blob: Option<Vec<u8>>, max_bytes: usize) -> Result<
    Seq<u8>,
    ErrorView,
> {
    match blob {
        None => Err(
            (ErrorKind::Validation, "No staged version of '"@ + path + "' in the index"@),
        ),
        Some(b) => if b@.len() > max_bytes {
            Err((ErrorKind::Validation, too_large_text(b@.len(), max_bytes as nat)))
        } else {
            Ok(b@)
        },
    }
}

/// The bytes of a staged image, given the blob recorded in the index.
pub fn check_blob(path: &str, blob: Option<Vec<u8>>, max_bytes: usize) -> (r: AppResult<Vec<u8>>)
    ensures
        match r {
            Ok(b) => staged_outcome(path@, blob, max_bytes) == Ok::<Seq<u8>, ErrorView>(b@),
            Err(e) => staged_outcome(path@, blob, max_bytes) == Err::<Seq<u8>, ErrorView>(e@),
        },
{
    match blob {
        None => {
            let m = join3("No staged version of '", path, "' in the index");
            Err(AppError::validation(m.as_str()))
        },
        Some(b) => {
            if b.len() > max_bytes {
                Err(too_large(b.len(), max_bytes))
            } else {
                Ok(b)
            }
        },
    }
}

/// `r` is the image of this type with these bytes.
pub open spec fn is_image(r: AppResult<ImageData>, mime: Seq<char>, bytes: Seq<u8>) -> bool {
    r matches Ok(image) && image.mime_type@ == mime && image.base64@ == base64_text(bytes)
}

/// Whether `full` is where `path` stands in the working tree.
pub open spec fn in_workdir(workdir: Option<&str>, path: Seq<char>, full: Seq<char>) -> bool {
    workdir matches Some(w) && full == under(w@, path)
}

/// Reads an image for preview: the file in the working tree, or, where `staged`, the blob that
/// the index records.
///
/// `stat` says what a path leads to, `read` reads a file and `blob` the blob of a path; their
/// failures are handed on. A path that is no image is refused before anything is looked at, and
/// a file is read only once it is known to be no link and within the limit.
pub fn read_image_data<S, R, B>(
    workdir: Option<&str>,
    path: &str,
    staged: bool,
    max_bytes: usize,
    stat: S,
    read: R,
    blob: B,
) -> (r: AppResult<ImageData>) where
    S: FnOnce(&str) -> AppResult<FileFacts>,
    R: FnOnce(&str) -> AppResult<Vec<u8>>,
    B: FnOnce(&str) -> AppResult<Option<Vec<u8>>>,

    requires
        forall|s: &str|
            image_type(path@) is Ok && !staged && in_workdir(workdir, path@, s@)
                ==> #[trigger] call_requires(stat, (s,)),
        forall|s: &str, f: FileFacts|
            image_type(path@) is Ok && !staged && in_workdir(workdir, path@, s@)
                && #[trigger] call_ensures(stat, (s,), Ok::<FileFacts, AppError>(f))
                && file_refusal(path@, f, max_bytes) is None ==> call_requires(read, (s,)),
        image_type(path@) is Ok && staged ==> call_requires(blob, (path,)),
        forall|s: &str, bytes: Vec<u8>| #[trigger]
            call_ensures(read, (s,), Ok::<Vec<u8>, AppError>(bytes)) ==> base64_len(bytes@.len())
                <= isize::MAX,
        forall|bytes: Vec<u8>| #[trigger]
            call_ensures(blob, (path,), Ok::<Option<Vec<u8>>, AppError>(Some(bytes)))
                && bytes@.len() <= max_bytes ==> base64_len(bytes@.len()) <= isize::MAX,
    ensures
        match image_type(path@) {
            Err(e) => outcome_err(r, e),
            Ok(mime) => if staged {
                exists|out: AppResult<Option<Vec<u8>>>|
                    {
                        &&& #[trigger] call_ensures(blob, (path,), out)
                        &&& match out {
                            Err(e) => r == Err::<ImageData, AppError>(e),
                            Ok(found) => match staged_outcome(path@, found, max_bytes) {
                                Ok(bytes) => is_image(r, mime, bytes),
                                Err(e) => outcome_err(r, e),
                            },
                        }
                    }
            } else {
                match workdir {
                    None => outcome_err(
                        r,
                        (ErrorKind::Validation, "Repository has no working tree"@),
                    ),
                    Some(w) => exists|full: &str, facts: AppResult<FileFacts>|
                        {
                            &&& full@ == under(w@, path@)
                            &&& #[trigger] call_ensures(stat, (full,), facts)
                            &&& match facts {
                                Err(e) => r == Err::<ImageData, AppError>(e),
                                Ok(f) => match file_refusal(path@, f, max_bytes) {
                                    Some(e) => outcome_err(r, e),
                                    None => exists|out: AppResult<Vec<u8>>|
                                        {
                                            &&& #[trigger] call_ensures(read, (full,), out)
                                            &&& match out {
                                                Err(e) => r == Err::<ImageData, AppError>(e),
                                                Ok(bytes) => is_image(r, mime, bytes@),
                                            }
                                        },
                                },
                            }
                        },
                }
            },
        },
{
    let mime = match mime_from_extension(path) {
        Ok(m) => m,
        Err(e) => return Err(e),
    };
    let bytes = if staged {
        let out = blob(path);
        assert(call_ensures(blob, (path,), out));
        let found = match out {
            Ok(b) => b,
            Err(e) => return Err(e),
        };
        let b = match check_blob(path, found, max_bytes) {
            Ok(b) => b,
            Err(e) => return Err(e),
        };
        b
    } else {
        let w = match workdir {
            Some(w) => w,
            None => return Err(AppError::validation("Repository has no working tree")),
        };
        let joined = join_path(w, path);
        let full = joined.as_str();
        let facts = stat(full);
        assert(call_ensures(stat, (full,), facts));
        let f = match facts {
            Ok(f) => f,
            Err(e) => return Err(e),
        };
        if let Err(e) = check_file(path, f, max_bytes) {
            return Err(e);
        }
        let out = read(full);
        assert(call_ensures(read, (full,), out));
        match out {
            Ok(b) => b,
            Err(e) => return Err(e),
        }
    };
    Ok(ImageData { mime_type: owned(mime), base64: encode_base64(&bytes) })
}

/// `r` is this failure.
pub open spec fn outcome_err(r: AppResult<ImageData>, e: ErrorView) -> bool {
    r matches Err(err) && err@ == e
}

/// Which files are shown as images: those with one of eight extensions, in any case of letters,
/// each with its own media type. Any other file is refused.
pub proof fn law_images_are_known_by_extension(
    path: &str,
    ext: Seq<char>,
    r: AppResult<&'static str>,
)
    requires
        call_ensures(mime_from_extension, (path,), r),
        extension(path@) == Some(ext),
    ensures
        ({
            let e = lowered(ext);
            &&& e == "png"@ ==> (r matches Ok(m) && m@ == "image/png"@)
            &&& e == "jpg"@ || e == "jpeg"@ ==> (r matches Ok(m) && m@ == "image/jpeg"@)
            &&& e == "gif"@ ==> (r matches Ok(m) && m@ == "image/gif"@)
            &&& e == "webp"@ ==> (r matches Ok(m) && m@ == "image/webp"@)
            &&& e == "bmp"@ ==> (r matches Ok(m) && m@ == "image/bmp"@)
            &&& e == "ico"@ ==> (r matches Ok(m) && m@ == "image/x-icon"@)
            &&& e == "avif"@ ==> (r matches Ok(m) && m@ == "image/avif"@)
            &&& e != "png"@ && e != "jpg"@ && e != "jpeg"@ && e != "gif"@ && e != "webp"@ && e
                != "bmp"@ && e != "ico"@ && e != "avif"@ ==> (r matches Err(x) && x@.0
                == ErrorKind::Validation)
        }),
{
    reveal_strlit("png");
    reveal_strlit("jpg");
    reveal_strlit("jpeg");
    reveal_strlit("gif");
    reveal_strlit("webp");
    reveal_strlit("bmp");
    reveal_strlit("ico");
    reveal_strlit("avif");
    assert("png"@[0] == 'p' && "jpg"@[0] == 'j' && "jpeg"@[0] == 'j' && "gif"@[0] == 'g' && "webp"@[
    0] == 'w' && "bmp"@[0] == 'b' && "ico"@[0] == 'i' && "avif"@[0] == 'a');
}

/// A file without an extension is no image.
pub proof fn law_no_extension_no_image(path: &str, r: AppResult<&'static str>)
    requires
        call_ensures(mime_from_extension, (path,), r),
        extension(path@) is None,
    ensures
        r matches Err(e) && e@.0 == ErrorKind::Validation,
{
}

/// Which files are read: no link ever, and no file over the limit; one of exactly the limit is.
pub proof fn law_files_within_the_limit_are_read(
    path: &str,
    facts: FileFacts,
    max_bytes: usize,
    r: AppResult<()>,
)
    requires
        call_ensures(check_file, (path, facts, max_bytes), r),
    ensures
        r is Ok <==> !facts.is_symlink && facts.len <= max_bytes,
        r matches Err(e) ==> e@.0 == ErrorKind::Validation,
{
}

/// Which staged images are shown: those that the index has, within the limit, byte for byte.
pub proof fn law_staged_blobs_within_the_limit_are_shown(
    path: &str,
    blob: Option<Vec<u8>>,
    max_bytes: usize,
    r: AppResult<Vec<u8>>,
)
    requires
        call_ensures(check_blob, (path, blob, max_bytes), r),
    ensures
        r is Ok <==> (blob matches Some(b) && b@.len() <= max_bytes),
        r matches Ok(bytes) ==> bytes@ == blob->0@,
        r matches Err(e) ==> e@.0 == ErrorKind::Validation,
{
}

/// An image that is shown is the one asked for: where `staged`, the bytes that the index has for
/// the path, otherwise those of the file at that path in the working tree, which is no link and
/// within the limit. Its type follows from the extension.
pub proof fn law_shown_image_is_the_one_asked_for<S, R, B>(
    workdir: Option<&str>,
    path: &str,
    staged: bool,
    max_bytes: usize,
    stat: S,
    read: R,
    blob: B,
    r: AppResult<ImageData>,
) where
    S: FnOnce(&str) -> AppResult<FileFacts>,
    R: FnOnce(&str) -> AppResult<Vec<u8>>,
    B: FnOnce(&str) -> AppResult<Option<Vec<u8>>>,

    requires
        call_ensures(
            read_image_data::<S, R, B>,
            (workdir, path, staged, max_bytes, stat, read, blob),
            r,
        ),
        r is Ok,
    ensures
        image_type(path@) == Ok::<Seq<char>, ErrorView>(r->Ok_0.mime_type@),
        staged ==> exists|out: AppResult<Option<Vec<u8>>>| #[trigger]
            call_ensures(blob, (path,), out) && (out matches Ok(Some(b)) && b@.len() <= max_bytes
                && r->Ok_0.base64@ == base64_text(b@)),
        !staged ==> workdir is Some && exists|full: &str, f: FileFacts, out: AppResult<Vec<u8>>|
            {
                &&& full@ == under(workdir->0@, path@)
                &&& #[trigger] call_ensures(stat, (full,), Ok::<FileFacts, AppError>(f))
                &&& !f.is_symlink && f.len <= max_bytes
                &&& #[trigger] call_ensures(read, (full,), out)
                &&& (out matches Ok(bytes) && r->Ok_0.base64@ == base64_text(bytes@))
            },
{
    let mime = image_type(path@)->Ok_0;
    if staged {
        let out = choose|out: AppResult<Option<Vec<u8>>>|
            {
                &&& #[trigger] call_ensures(blob, (path,), out)
                &&& match out {
                    Err(e) => r == Err::<ImageData, AppError>(e),
                    Ok(found) => match staged_outcome(path@, found, max_bytes) {
                        Ok(bytes) => is_image(r, mime, bytes),
                        Err(e) => outcome_err(r, e),
                    },
                }
            };
        assert(call_ensures(blob, (path,), out));
    } else {
        let w = workdir->0;
        let (full, facts) = choose|full: &str, facts: AppResult<FileFacts>|
            {
                &&& full@ == under(w@, path@)
                &&& #[trigger] call_ensures(stat, (full,), facts)
                &&& (facts matches Ok(f) && file_refusal(path@, f, max_bytes) is None)
                &&& exists|out: AppResult<Vec<u8>>|
                    {
                        &&& #[trigger] call_ensures(read, (full,), out)
                        &&& (out matches Ok(bytes) && is_image(r, mime, bytes@))
                    }
            };
        let f = facts->Ok_0;
        assert(call_ensures(stat, (full,), Ok::<FileFacts, AppError>(f)));
    }
}

/// A staged image that git has, within the limit, is shown, and a file of the working tree that is
/// no link and within the limit is shown as well, where reading gives its bytes.
pub proof fn law_images_within_the_limit_are_shown<S, R, B>(
    workdir: Option<&str>,
    path: &str,
    staged: bool,
    max_bytes: usize,
    stat: S,
    read: R,
    blob: B,
    r: AppResult<ImageData>,
) where
    S: FnOnce(&str) -> AppResult<FileFacts>,
    R: FnOnce(&str) -> AppResult<Vec<u8>>,
    B: FnOnce(&str) -> AppResult<Option<Vec<u8>>>,

    requires
        call_ensures(
            read_image_data::<S, R, B>,
            (workdir, path, staged, max_bytes, stat, read, blob),
            r,
        ),
        image_type(path@) is Ok,
        staged ==> forall|out: AppResult<Option<Vec<u8>>>| #[trigger]
            call_ensures(blob, (path,), out) ==> (out matches Ok(Some(b)) && b@.len() <= max_bytes),
        !staged ==> workdir is Some,
        !staged ==> forall|s: &str, out: AppResult<FileFacts>| #[trigger]
            call_ensures(stat, (s,), out) ==> (out matches Ok(f) && !f.is_symlink && f.len
                <= max_bytes),
        !staged ==> forall|s: &str, out: AppResult<Vec<u8>>| #[trigger]
            call_ensures(read, (s,), out) ==> out is Ok,
    ensures
        r is Ok,
{
}

/// A file that is not shown is refused with the reason: a link by its path, one that is too large
/// by its size and the limit.
pub proof fn law_refused_images_are_told_why(
    path: &str,
    facts: FileFacts,
    max_bytes: usize,
    r: AppResult<()>,
)
    requires
        call_ensures(check_file, (path, facts, max_bytes), r),
    ensures
        facts.is_symlink ==> r is Err && r->Err_0@.1 == "Refusing to read '"@ + path@
            + "': it is a symbolic link"@,
        !facts.is_symlink && max_bytes < facts.len <= usize::MAX ==> r is Err && r->Err_0@.1
            == "Image is too large ("@ + decimal(facts.len as nat) + " bytes); the maximum is "@
            + decimal(max_bytes as nat) + " bytes"@,
{
}

/// A staged image that is not shown is refused with the reason: it is not in the index, or it is
/// too large by its size and the limit.
pub proof fn law_refused_blobs_are_told_why(
    path: &str,
    blob: Option<Vec<u8>>,
    max_bytes: usize,
    r: AppResult<Vec<u8>>,
)
    requires
        call_ensures(check_blob, (path, blob, max_bytes), r),
    ensures
        blob is None ==> r is Err && r->Err_0@.1 == "No staged version of '"@ + path@
            + "' in the index"@,
        blob is Some && blob->0@.len() > max_bytes ==> r is Err && r->Err_0@.1
            == "Image is too large ("@ + decimal(blob->0@.len()) + " bytes); the maximum is "@
            + decimal(max_bytes as nat) + " bytes"@,
{
}

/// A file that is no image is refused with its extension, or for want of one, before anything is
/// read.
pub proof fn law_other_files_are_told_apart(path: &str, r: AppResult<&'static str>)
    requires
        call_ensures(mime_from_extension, (path,), r),
    ensures
        extension(path@) is None ==> r is Err && r->Err_0@.1
            == "File has no extension; not a supported image"@,
        extension(path@) matches Some(ext) ==> r is Err ==> r->Err_0@.1
            == "Unsupported image type: ."@ + lowered(ext),
{
}

/// What is refused by its name is refused when it is to be shown as well, and for the same reason;
/// so is a file of a repository without a working tree.
pub proof fn law_refusals_come_before_reading<S, R, B>(
    workdir: Option<&str>,
    path: &str,
    staged: bool,
    max_bytes: usize,
    stat: S,
    read: R,
    blob: B,
    r: AppResult<ImageData>,
) where
    S: FnOnce(&str) -> AppResult<FileFacts>,
    R: FnOnce(&str) -> AppResult<Vec<u8>>,
    B: FnOnce(&str) -> AppResult<Option<Vec<u8>>>,

    requires
        call_ensures(
            read_image_data::<S, R, B>,
            (workdir, path, staged, max_bytes, stat, read, blob),
            r,
        ),
    ensures
        image_type(path@) matches Err(e) ==> r is Err && r->Err_0@ == e,
        image_type(path@) is Ok && !staged && workdir is None ==> r is Err && r->Err_0@ == (
            ErrorKind::Validation,
            "Repository has no working tree"@,
        ),
{
}

} // verus!

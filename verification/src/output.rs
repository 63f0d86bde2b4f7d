//! Where a downloaded image goes, and whether it is converted to WebP locally.
//!
//! With WebP enabled the saved file ends in `.webp` whenever the output path
//! has a file name (`Path::with_extension` leaves a path without one, such as
//! `/` or `..`, unchanged). A model that accepts `output_format` delivers WebP
//! itself, which is saved unchanged; for any other model the download is
//! converted locally and then removed. The download then never lands on the
//! `.webp` target: an output path ending in `.webp` downloads to the same path
//! with `.png` first.

use vstd::prelude::*;
use crate::prompt_file::opt_view;
use crate::text::str_eq;

verus! {

/// What `std::path::Path::extension` returns for `path`, as text.
pub uninterp spec fn path_extension(path: Seq<char>) -> Option<Seq<char>>;

/// What `std::path::Path::with_extension` returns for `path` and `ext`, as text.
pub uninterp spec fn path_with_extension(path: Seq<char>, ext: Seq<char>) -> Seq<char>;

/// Calls `std::path::Path::extension`. The contract claims only that the
/// result is the one `path_extension` names for this path.
#[verifier::external_body]
fn extension_of(path: &str) -> (r: Option<String>)
    ensures
        opt_view(r) == path_extension(path@),
{
    std::path::Path::new(path).extension().map(|e| e.to_string_lossy().into_owned())
}

/// `ext` is a nonempty extension without a dot.
pub open spec fn plain_extension(ext: Seq<char>) -> bool {
    ext.len() > 0 && forall|i: int| 0 <= i < ext.len() ==> ext[i] != '.'
}

/// Calls `std::path::Path::with_extension`, which panics when the extension
/// holds a path separator (`/`, and `\` on Windows), so such extensions are
/// not admitted. The contract claims that the result is the one
/// `path_with_extension` names for these arguments and, as `set_extension`
/// documents it for a nonempty extension without a dot, that the result has
/// that extension, unless the path has no file name and comes back unchanged;
/// a path with an extension has a file name. It claims nothing of the text of
/// the result beyond that.
#[verifier::external_body]
fn with_extension(path: &str, ext: &str) -> (r: String)
    requires
        forall|i: int| 0 <= i < ext@.len() ==> ext@[i] != '/' && ext@[i] != '\\',
    ensures
        r@ == path_with_extension(path@, ext@),
        plain_extension(ext@) ==> path_extension(r@) == Some(ext@) || r@ == path@,
        plain_extension(ext@) && path_extension(path@) is Some ==> path_extension(r@) == Some(ext@),
{
    std::path::Path::new(path).with_extension(ext).to_string_lossy().into_owned()
}

/// How an image reaches its output path.
#[derive(Debug)]
pub struct OutputPlan {
    /// Where the downloaded image is written.
    pub download_path: String,
    /// The path of the WebP file to encode from the download, which is then
    /// removed; `None` when the download is kept as it is.
    pub convert_to: Option<String>,
    /// The path of the file that holds the image at the end.
    pub saved_path: String,
}

/// The plan for an image requested for `out`, with or without WebP, from a
/// model that does or does not deliver the format itself.
pub open spec fn output_plan(out: Seq<char>, webp: bool, server_format: bool, p: OutputPlan) -> bool {
    if !webp {
        &&& p.download_path@ == out
        &&& p.convert_to is None
        &&& p.saved_path@ == out
    } else if server_format {
        &&& p.download_path@ == path_with_extension(out, "webp"@)
        &&& p.convert_to is None
        &&& p.saved_path@ == path_with_extension(out, "webp"@)
    } else {
        &&& p.download_path@ == (if path_extension(out) == Some("webp"@) {
            path_with_extension(out, "png"@)
        } else {
            out
        })
        &&& opt_view(p.convert_to) == Some(path_with_extension(out, "webp"@))
        &&& p.saved_path@ == path_with_extension(out, "webp"@)
    }
}

/// Plans the files of one image: `webp` asks for WebP output, `server_format`
/// tells that the model delivers the requested format itself.
pub fn plan_output(out: &str, webp: bool, server_format: bool) -> (p: OutputPlan)
    ensures
        output_plan(out@, webp, server_format, p),
        !webp ==> p.download_path@ == out@ && p.convert_to is None && p.saved_path@ == out@,
        webp ==> path_extension(p.saved_path@) == Some("webp"@) || p.saved_path@ == out@,
        webp && path_extension(out@) is Some ==> path_extension(p.saved_path@) == Some("webp"@),
        webp && !server_format && (path_extension(out@) is Some || p.saved_path@ != out@)
            ==> p.download_path@ != p.saved_path@,
{
    if !webp {
        return OutputPlan {
            download_path: String::from_str(out),
            convert_to: None,
            saved_path: String::from_str(out),
        };
    }
    proof {
        reveal_strlit("webp");
        reveal_strlit("png");
    }
    let target = with_extension(out, "webp");
    if server_format {
        return OutputPlan {
            download_path: target.clone(),
            convert_to: None,
            saved_path: target,
        };
    }
    let is_webp = match extension_of(out) {
        Some(e) => str_eq(e.as_str(), "webp"),
        None => false,
    };
    let download_path = if is_webp {
        with_extension(out, "png")
    } else {
        String::from_str(out)
    };
    assert("webp"@ != "png"@);
    OutputPlan { download_path, convert_to: Some(target.clone()), saved_path: target }
}


/// Without WebP the image is downloaded to the path asked for and kept there,
/// whatever the model delivers: nothing is converted.
pub proof fn lemma_plain_output_kept(out: Seq<char>, server_format: bool, p: OutputPlan)
    requires
        output_plan(out, false, server_format, p),
    ensures
        p.download_path@ == out,
        p.convert_to is None,
        p.saved_path@ == out,
{
}

/// With WebP the image ends up at the output path with the extension `webp`,
/// and it is converted locally exactly when the model does not deliver the
/// format itself.
pub proof fn lemma_webp_output_target(out: Seq<char>, server_format: bool, p: OutputPlan)
    requires
        output_plan(out, true, server_format, p),
    ensures
        p.saved_path@ == path_with_extension(out, "webp"@),
        p.convert_to is Some <==> !server_format,
{
}

} // verus!

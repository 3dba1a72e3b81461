//! Which files belong to a corpus, and where a corpus has its root.

use crate::text::{chars_of, opt_text, same_text};
use vstd::prelude::*;

verus! {

/// What `str::to_lowercase` makes of `s`.
pub uninterp spec fn lowercase_of(s: Seq<char>) -> Seq<char>;

/// Turns a text into lower case with `str::to_lowercase`, which goes by the
/// Unicode property `Lowercase`. What comes back depends on the text alone.
#[verifier::external_body]
fn lowercase(s: &str) -> (r: String)
    ensures
        r@ == lowercase_of(s@),
{
    s.to_lowercase()
}

/// The extensions, in lower case, of files that hold no text worth reading:
/// compiled code, images, sound and film, archives, generated data, fonts,
/// office documents and lock files.
pub open spec fn is_skipped(e: Seq<char>) -> bool {
    ||| e == "exe"@ || e == "dll"@ || e == "so"@ || e == "dylib"@ || e == "o"@ || e == "a"@ || e
        == "class"@ || e == "pyc"@ || e == "pyo"@
    ||| e == "png"@ || e == "jpg"@ || e == "jpeg"@ || e == "gif"@ || e == "bmp"@ || e == "ico"@
        || e == "svg"@ || e == "webp"@
    ||| e == "mp3"@ || e == "mp4"@ || e == "wav"@ || e == "avi"@ || e == "mov"@ || e == "mkv"@
    ||| e == "zip"@ || e == "tar"@ || e == "gz"@ || e == "bz2"@ || e == "7z"@ || e == "rar"@
    ||| e == "xml"@ || e == "plist"@ || e == "pbxproj"@
    ||| e == "ttf"@ || e == "otf"@ || e == "woff"@ || e == "woff2"@
    ||| e == "pdf"@ || e == "doc"@ || e == "docx"@ || e == "xls"@ || e == "xlsx"@ || e == "ppt"@
        || e == "pptx"@
    ||| e == "lock"@
}

fn is_word(e: &Vec<char>, word: &str) -> (r: bool)
    ensures
        r == (e@ == word@),
{
    let w = chars_of(word);
    same_text(e, &w)
}

/// Whether files with this extension, given in lower case, are left out.
pub fn is_skipped_extension(lower: &str) -> (r: bool)
    ensures
        r == is_skipped(lower@),
{
    let e = chars_of(lower);
    let compiled = is_word(&e, "exe") || is_word(&e, "dll") || is_word(&e, "so") || is_word(
        &e,
        "dylib",
    ) || is_word(&e, "o") || is_word(&e, "a") || is_word(&e, "class") || is_word(&e, "pyc")
        || is_word(&e, "pyo");
    let images = is_word(&e, "png") || is_word(&e, "jpg") || is_word(&e, "jpeg") || is_word(
        &e,
        "gif",
    ) || is_word(&e, "bmp") || is_word(&e, "ico") || is_word(&e, "svg") || is_word(&e, "webp");
    let media = is_word(&e, "mp3") || is_word(&e, "mp4") || is_word(&e, "wav") || is_word(
        &e,
        "avi",
    ) || is_word(&e, "mov") || is_word(&e, "mkv");
    let archives = is_word(&e, "zip") || is_word(&e, "tar") || is_word(&e, "gz") || is_word(
        &e,
        "bz2",
    ) || is_word(&e, "7z") || is_word(&e, "rar");
    let data = is_word(&e, "xml") || is_word(&e, "plist") || is_word(&e, "pbxproj");
    let fonts = is_word(&e, "ttf") || is_word(&e, "otf") || is_word(&e, "woff") || is_word(
        &e,
        "woff2",
    );
    let office = is_word(&e, "pdf") || is_word(&e, "doc") || is_word(&e, "docx") || is_word(
        &e,
        "xls",
    ) || is_word(&e, "xlsx") || is_word(&e, "ppt") || is_word(&e, "pptx");
    let locks = is_word(&e, "lock");
    compiled || images || media || archives || data || fonts || office || locks
}

/// Whether files with this extension are left out of a corpus. Upper and
/// lower case count alike.
pub fn should_skip_file(ext: &str) -> (r: bool)
    ensures
        r == is_skipped(lowercase_of(ext@)),
{
    let lower = lowercase(ext);
    is_skipped_extension(lower.as_str())
}

pub open spec fn folder_views(v: Seq<(String, bool)>) -> Seq<(Seq<char>, bool)> {
    v.map_values(|f: (String, bool)| (f.0@, f.1))
}

/// The first index at or after `i` of a folder that is marked.
pub open spec fn first_marked(chain: Seq<(Seq<char>, bool)>, i: int) -> Option<int>
    decreases chain.len() - i,
{
    if i < 0 || i >= chain.len() {
        None
    } else if chain[i].1 {
        Some(i)
    } else {
        first_marked(chain, i + 1)
    }
}

/// The root of a corpus: of the folders given, each with whether it holds a
/// marker directory, the first that does. The folders are those from the
/// corpus upwards, the nearest first.
pub open spec fn root_of(chain: Seq<(Seq<char>, bool)>) -> Option<Seq<char>> {
    match first_marked(chain, 0) {
        Some(i) => Some(chain[i].0),
        None => None,
    }
}

/// Finds the root of a corpus among the folders above it.
pub fn find_repo_root(chain: &Vec<(String, bool)>) -> (r: Option<String>)
    ensures
        opt_text(r) == root_of(folder_views(chain@)),
{
    let mut i: usize = 0;
    while i < chain.len()
        invariant
            i <= chain@.len(),
            first_marked(folder_views(chain@), 0) == first_marked(folder_views(chain@), i as int),
        decreases chain@.len() - i,
    {
        assert(folder_views(chain@)[i as int] == (chain@[i as int].0@, chain@[i as int].1));
        if chain[i].1 {
            return Some(chain[i].0.clone());
        }
        i += 1;
    }
    None
}

} // verus!

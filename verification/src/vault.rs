//! Vault file naming and the bookkeeping of a mounted vault session.
use vstd::prelude::*;
use vstd::string::StringExecFns;

use crate::crypto::DecryptError;
use crate::paths::{
    extension, file_name, join, lemma_extension_of_suffixed, lemma_file_name_of_suffixed, std_extension, std_file_name, std_join,
};
use crate::text::{
    append_decimal, ascii_lower_code, ascii_lower_eq, decimal_digits, ends_with, eq_ascii_lowercase, seq_ends_with,
    seq_starts_with, starts_with,
};

verus! {

/// The file name of `path`, or the empty text when it has none.
pub open spec fn name_of(path: Seq<char>) -> Seq<char> {
    match std_file_name(path) {
        Some(n) => n,
        None => Seq::empty(),
    }
}

/// A vault file name: `*.valv`, or a legacy `.valv.*` name.
pub open spec fn is_valv_name(name: Seq<char>) -> bool {
    seq_ends_with(name, ".valv"@) || seq_starts_with(name, ".valv."@)
}

/// A thumbnail vault file name: `*-t.valv`.
pub open spec fn is_thumbnail_name(name: Seq<char>) -> bool {
    seq_ends_with(name, "-t.valv"@)
}

/// `name` without its last `suffix.len()` characters.
pub open spec fn strip_tail(name: Seq<char>, suffix: Seq<char>) -> Seq<char> {
    name.subrange(0, name.len() - suffix.len())
}

/// The part of a full-size vault file name before its `-i.valv`, `-g.valv`
/// or `-v.valv` suffix; other names have no thumbnail.
pub open spec fn thumbnail_stem(name: Seq<char>) -> Option<Seq<char>> {
    if seq_ends_with(name, "-i.valv"@) {
        Some(strip_tail(name, "-i.valv"@))
    } else if seq_ends_with(name, "-g.valv"@) {
        Some(strip_tail(name, "-g.valv"@))
    } else if seq_ends_with(name, "-v.valv"@) {
        Some(strip_tail(name, "-v.valv"@))
    } else {
        None
    }
}

/// Whether the file at `path` is a vault file, by its name.
pub fn is_valv_file(path: &str) -> (r: bool)
    ensures
        r == is_valv_name(name_of(path@)),
{
    let name = match file_name(path) {
        Some(n) => n,
        None => "",
    };
    proof {
        reveal_strlit("");
        assert(name@ =~= name_of(path@));
    }
    ends_with(name, ".valv") || starts_with(name, ".valv.")
}

/// Whether the file at `path` is a thumbnail vault file, by its name.
pub fn is_thumbnail_valv_file(path: &str) -> (r: bool)
    ensures
        r == is_thumbnail_name(name_of(path@)),
{
    let name = match file_name(path) {
        Some(n) => n,
        None => "",
    };
    proof {
        reveal_strlit("");
        assert(name@ =~= name_of(path@));
    }
    ends_with(name, "-t.valv")
}

/// `name` without the given suffix, which it ends with.
fn strip_suffix_of<'a>(name: &'a str, suffix: &str) -> (r: &'a str)
    requires
        seq_ends_with(name@, suffix@),
    ensures
        r@ == strip_tail(name@, suffix@),
{
    let n = name.unicode_len();
    let m = suffix.unicode_len();
    name.substring_char(0, n - m)
}

/// The name of the thumbnail file belonging to a full-size vault file.
pub fn get_thumbnail_valv_name(valv_name: &str) -> (r: Option<String>)
    ensures
        match thumbnail_stem(valv_name@) {
            Some(stem) => r matches Some(t) && t@ == stem + "-t.valv"@,
            None => r is None,
        },
{
    let stem = if ends_with(valv_name, "-i.valv") {
        strip_suffix_of(valv_name, "-i.valv")
    } else if ends_with(valv_name, "-g.valv") {
        strip_suffix_of(valv_name, "-g.valv")
    } else if ends_with(valv_name, "-v.valv") {
        strip_suffix_of(valv_name, "-v.valv")
    } else {
        return None;
    };
    let mut t = stem.to_owned();
    t.append("-t.valv");
    Some(t)
}

/// Whether the file at `path` is mounted: a vault file that is not a thumbnail.
pub fn is_mount_source(path: &str) -> (r: bool)
    ensures
        r == (is_valv_name(name_of(path@)) && !is_thumbnail_name(name_of(path@))),
{
    is_valv_file(path) && !is_thumbnail_valv_file(path)
}

/// Whether a file name marks a legacy v1 vault file (`.valv.*`).
pub fn has_v1_name(path: &str) -> (r: bool)
    ensures
        r == (match std_file_name(path@) {
            Some(n) => seq_starts_with(n, ".valv."@),
            None => false,
        }),
{
    match file_name(path) {
        Some(n) => starts_with(n, ".valv."),
        None => false,
    }
}


/// Still-image extensions (besides `gif`), compared after ASCII lower-casing.
pub open spec fn is_image_ext(e: Seq<char>) -> bool {
    ascii_lower_eq(e, "jpg"@) || ascii_lower_eq(e, "jpeg"@) || ascii_lower_eq(e, "png"@)
        || ascii_lower_eq(e, "webp"@) || ascii_lower_eq(e, "bmp"@) || ascii_lower_eq(e, "svg"@)
        || ascii_lower_eq(e, "heic"@) || ascii_lower_eq(e, "heif"@) || ascii_lower_eq(e, "avif"@)
        || ascii_lower_eq(e, "ico"@)
}

/// Video extensions.
pub open spec fn is_video_ext(e: Seq<char>) -> bool {
    ascii_lower_eq(e, "mp4"@) || ascii_lower_eq(e, "mkv"@) || ascii_lower_eq(e, "mov"@)
        || ascii_lower_eq(e, "avi"@) || ascii_lower_eq(e, "webm"@) || ascii_lower_eq(e, "flv"@)
        || ascii_lower_eq(e, "3gp"@) || ascii_lower_eq(e, "wmv"@) || ascii_lower_eq(e, "m4v"@)
}

/// Text and document extensions.
pub open spec fn is_text_ext(e: Seq<char>) -> bool {
    ascii_lower_eq(e, "txt"@) || ascii_lower_eq(e, "md"@) || ascii_lower_eq(e, "json"@)
        || ascii_lower_eq(e, "csv"@) || ascii_lower_eq(e, "xml"@) || ascii_lower_eq(e, "log"@)
        || ascii_lower_eq(e, "pdf"@) || ascii_lower_eq(e, "html"@) || ascii_lower_eq(e, "css"@)
        || ascii_lower_eq(e, "js"@) || ascii_lower_eq(e, "py"@) || ascii_lower_eq(e, "rs"@)
}

/// The extension of `path`, or the empty text when it has none.
pub open spec fn extension_of(path: Seq<char>) -> Seq<char> {
    match std_extension(path) {
        Some(e) => e,
        None => Seq::empty(),
    }
}

/// The vault file suffix for a file with extension `e`.
pub open spec fn suffix_for_extension(e: Seq<char>) -> Seq<char> {
    if ascii_lower_eq(e, "gif"@) {
        "-g.valv"@
    } else if is_image_ext(e) {
        "-i.valv"@
    } else if is_video_ext(e) {
        "-v.valv"@
    } else if is_text_ext(e) {
        "-x.valv"@
    } else {
        "-i.valv"@
    }
}

/// Whether a file with extension `e` is an image or a video.
pub open spec fn is_media_ext(e: Seq<char>) -> bool {
    ascii_lower_eq(e, "gif"@) || is_image_ext(e) || is_video_ext(e)
}

/// Lower-casing is a function: a text lower-cases to one text only (as
/// code points).
proof fn lemma_lower_eq_unique(e: Seq<char>, a: Seq<char>, b: Seq<char>)
    requires
        ascii_lower_eq(e, a),
        ascii_lower_eq(e, b),
    ensures
        a.len() == b.len(),
        forall|i: int| 0 <= i < a.len() ==> a[i] as u32 == b[i] as u32,
{
    assert forall|i: int| 0 <= i < a.len() implies a[i] as u32 == b[i] as u32 by {
        assert(ascii_lower_code(e[i]) == a[i] as u32);
        assert(ascii_lower_code(e[i]) == b[i] as u32);
    }
}

/// The extension lists name each extension once: a text that lower-cases to
/// one of the listed extensions lower-cases to no other.
proof fn lemma_extension_kinds(e: Seq<char>)
    ensures
        forall|a: Seq<char>, b: Seq<char>|
            #[trigger] ascii_lower_eq(e, a) && #[trigger] ascii_lower_eq(e, b) ==> a.len() == b.len() && (
            forall|i: int| 0 <= i < a.len() ==> a[i] as u32 == b[i] as u32),
{
    assert forall|a: Seq<char>, b: Seq<char>|
        #[trigger] ascii_lower_eq(e, a) && #[trigger] ascii_lower_eq(e, b) implies a.len() == b.len() && (
        forall|i: int| 0 <= i < a.len() ==> a[i] as u32 == b[i] as u32) by {
        lemma_lower_eq_unique(e, a, b);
    }
}

/// A file whose extension is, in any ASCII case, one of the video
/// extensions (mp4, mkv, mov, avi, webm, flv, 3gp, wmv, m4v) is stored with
/// the suffix `-v.valv` and gets a thumbnail.
pub proof fn lemma_video_extensions(e: Seq<char>)
    requires
        ascii_lower_eq(e, "mp4"@) || ascii_lower_eq(e, "mkv"@) || ascii_lower_eq(e, "mov"@) || ascii_lower_eq(e, "avi"@) || ascii_lower_eq(e, "webm"@) || ascii_lower_eq(e, "flv"@) || ascii_lower_eq(e, "3gp"@) || ascii_lower_eq(e, "wmv"@) || ascii_lower_eq(e, "m4v"@),
    ensures
        suffix_for_extension(e) == "-v.valv"@,
        is_media_ext(e),
{
    let (c0, c1, c2, c3) = (e[0], e[1], e[2], e[3]);
    reveal_strlit("gif");
    reveal_strlit("jpg");
    reveal_strlit("jpeg");
    reveal_strlit("png");
    reveal_strlit("webp");
    reveal_strlit("bmp");
    reveal_strlit("svg");
    reveal_strlit("heic");
    reveal_strlit("heif");
    reveal_strlit("avif");
    reveal_strlit("ico");
    reveal_strlit("mp4");
    reveal_strlit("mkv");
    reveal_strlit("mov");
    reveal_strlit("avi");
    reveal_strlit("webm");
    reveal_strlit("flv");
    reveal_strlit("3gp");
    reveal_strlit("wmv");
    reveal_strlit("m4v");
    reveal_strlit("txt");
    reveal_strlit("md");
    reveal_strlit("json");
    reveal_strlit("csv");
    reveal_strlit("xml");
    reveal_strlit("log");
    reveal_strlit("pdf");
    reveal_strlit("html");
    reveal_strlit("css");
    reveal_strlit("js");
    reveal_strlit("py");
    reveal_strlit("rs");
    reveal_strlit("-g.valv");
    reveal_strlit("-i.valv");
    reveal_strlit("-v.valv");
    reveal_strlit("-x.valv");
}

/// A file whose extension is, in any ASCII case, one of the still-image
/// extensions (jpg, jpeg, png, webp, bmp, svg, heic, heif, avif, ico) is
/// stored with the suffix `-i.valv` and gets a thumbnail.
pub proof fn lemma_image_extensions(e: Seq<char>)
    requires
        ascii_lower_eq(e, "jpg"@) || ascii_lower_eq(e, "jpeg"@) || ascii_lower_eq(e, "png"@) || ascii_lower_eq(e, "webp"@) || ascii_lower_eq(e, "bmp"@) || ascii_lower_eq(e, "svg"@) || ascii_lower_eq(e, "heic"@) || ascii_lower_eq(e, "heif"@) || ascii_lower_eq(e, "avif"@) || ascii_lower_eq(e, "ico"@),
    ensures
        suffix_for_extension(e) == "-i.valv"@,
        is_media_ext(e),
{
    let (c0, c1, c2, c3) = (e[0], e[1], e[2], e[3]);
    reveal_strlit("gif");
    reveal_strlit("jpg");
    reveal_strlit("jpeg");
    reveal_strlit("png");
    reveal_strlit("webp");
    reveal_strlit("bmp");
    reveal_strlit("svg");
    reveal_strlit("heic");
    reveal_strlit("heif");
    reveal_strlit("avif");
    reveal_strlit("ico");
    reveal_strlit("mp4");
    reveal_strlit("mkv");
    reveal_strlit("mov");
    reveal_strlit("avi");
    reveal_strlit("webm");
    reveal_strlit("flv");
    reveal_strlit("3gp");
    reveal_strlit("wmv");
    reveal_strlit("m4v");
    reveal_strlit("txt");
    reveal_strlit("md");
    reveal_strlit("json");
    reveal_strlit("csv");
    reveal_strlit("xml");
    reveal_strlit("log");
    reveal_strlit("pdf");
    reveal_strlit("html");
    reveal_strlit("css");
    reveal_strlit("js");
    reveal_strlit("py");
    reveal_strlit("rs");
    reveal_strlit("-g.valv");
    reveal_strlit("-i.valv");
    reveal_strlit("-v.valv");
    reveal_strlit("-x.valv");
}

/// A GIF, in any ASCII case, is stored with the suffix `-g.valv` and gets a
/// thumbnail.
pub proof fn lemma_gif_extension(e: Seq<char>)
    requires
        ascii_lower_eq(e, "gif"@),
    ensures
        suffix_for_extension(e) == "-g.valv"@,
        is_media_ext(e),
{
    let (c0, c1, c2, c3) = (e[0], e[1], e[2], e[3]);
    reveal_strlit("gif");
    reveal_strlit("jpg");
    reveal_strlit("jpeg");
    reveal_strlit("png");
    reveal_strlit("webp");
    reveal_strlit("bmp");
    reveal_strlit("svg");
    reveal_strlit("heic");
    reveal_strlit("heif");
    reveal_strlit("avif");
    reveal_strlit("ico");
    reveal_strlit("mp4");
    reveal_strlit("mkv");
    reveal_strlit("mov");
    reveal_strlit("avi");
    reveal_strlit("webm");
    reveal_strlit("flv");
    reveal_strlit("3gp");
    reveal_strlit("wmv");
    reveal_strlit("m4v");
    reveal_strlit("txt");
    reveal_strlit("md");
    reveal_strlit("json");
    reveal_strlit("csv");
    reveal_strlit("xml");
    reveal_strlit("log");
    reveal_strlit("pdf");
    reveal_strlit("html");
    reveal_strlit("css");
    reveal_strlit("js");
    reveal_strlit("py");
    reveal_strlit("rs");
    reveal_strlit("-g.valv");
    reveal_strlit("-i.valv");
    reveal_strlit("-v.valv");
    reveal_strlit("-x.valv");
}

/// A file whose extension is, in any ASCII case, one of the text and
/// document extensions (txt, md, json, csv, xml, log, pdf, html, css, js,
/// py, rs) is stored with the suffix `-x.valv` and gets no thumbnail.
pub proof fn lemma_text_extensions(e: Seq<char>)
    requires
        ascii_lower_eq(e, "txt"@) || ascii_lower_eq(e, "md"@) || ascii_lower_eq(e, "json"@) || ascii_lower_eq(e, "csv"@) || ascii_lower_eq(e, "xml"@) || ascii_lower_eq(e, "log"@) || ascii_lower_eq(e, "pdf"@) || ascii_lower_eq(e, "html"@) || ascii_lower_eq(e, "css"@) || ascii_lower_eq(e, "js"@) || ascii_lower_eq(e, "py"@) || ascii_lower_eq(e, "rs"@),
    ensures
        suffix_for_extension(e) == "-x.valv"@,
        !is_media_ext(e),
{
    let (c0, c1, c2, c3) = (e[0], e[1], e[2], e[3]);
    reveal_strlit("gif");
    reveal_strlit("jpg");
    reveal_strlit("jpeg");
    reveal_strlit("png");
    reveal_strlit("webp");
    reveal_strlit("bmp");
    reveal_strlit("svg");
    reveal_strlit("heic");
    reveal_strlit("heif");
    reveal_strlit("avif");
    reveal_strlit("ico");
    reveal_strlit("mp4");
    reveal_strlit("mkv");
    reveal_strlit("mov");
    reveal_strlit("avi");
    reveal_strlit("webm");
    reveal_strlit("flv");
    reveal_strlit("3gp");
    reveal_strlit("wmv");
    reveal_strlit("m4v");
    reveal_strlit("txt");
    reveal_strlit("md");
    reveal_strlit("json");
    reveal_strlit("csv");
    reveal_strlit("xml");
    reveal_strlit("log");
    reveal_strlit("pdf");
    reveal_strlit("html");
    reveal_strlit("css");
    reveal_strlit("js");
    reveal_strlit("py");
    reveal_strlit("rs");
    reveal_strlit("-g.valv");
    reveal_strlit("-i.valv");
    reveal_strlit("-v.valv");
    reveal_strlit("-x.valv");
}

/// Any other extension (or none) is stored with the suffix `-i.valv` and
/// gets no thumbnail.
pub proof fn lemma_other_extensions(e: Seq<char>)
    requires
        !(ascii_lower_eq(e, "gif"@) || ascii_lower_eq(e, "jpg"@) || ascii_lower_eq(e, "jpeg"@) || ascii_lower_eq(e, "png"@) || ascii_lower_eq(e, "webp"@) || ascii_lower_eq(e, "bmp"@) || ascii_lower_eq(e, "svg"@) || ascii_lower_eq(e, "heic"@) || ascii_lower_eq(e, "heif"@) || ascii_lower_eq(e, "avif"@) || ascii_lower_eq(e, "ico"@) || ascii_lower_eq(e, "mp4"@) || ascii_lower_eq(e, "mkv"@) || ascii_lower_eq(e, "mov"@) || ascii_lower_eq(e, "avi"@) || ascii_lower_eq(e, "webm"@) || ascii_lower_eq(e, "flv"@) || ascii_lower_eq(e, "3gp"@) || ascii_lower_eq(e, "wmv"@) || ascii_lower_eq(e, "m4v"@) || ascii_lower_eq(e, "txt"@) || ascii_lower_eq(e, "md"@) || ascii_lower_eq(e, "json"@) || ascii_lower_eq(e, "csv"@) || ascii_lower_eq(e, "xml"@) || ascii_lower_eq(e, "log"@) || ascii_lower_eq(e, "pdf"@) || ascii_lower_eq(e, "html"@) || ascii_lower_eq(e, "css"@) || ascii_lower_eq(e, "js"@) || ascii_lower_eq(e, "py"@) || ascii_lower_eq(e, "rs"@)),
    ensures
        suffix_for_extension(e) == "-i.valv"@,
        !is_media_ext(e),
{
}

/// The extension of a file named `head.ext` (a name part that is not empty
/// and does not end in `/`, an extension without `/` or `.`) is `ext`, so
/// the laws above give the suffix and thumbnail decision for such paths.
pub proof fn lemma_extension_of_named_file(head: Seq<char>, ext: Seq<char>)
    requires
        head.len() > 0,
        head.last() != '/',
        ext.len() > 0,
        !ext.contains('/'),
        !ext.contains('.'),
    ensures
        extension_of(head + seq!['.'] + ext) == ext,
{
    lemma_extension_of_suffixed(head, ext);
}

fn image_ext(e: &str) -> (r: bool)
    ensures
        r == is_image_ext(e@),
{
    eq_ascii_lowercase(e, "jpg") || eq_ascii_lowercase(e, "jpeg") || eq_ascii_lowercase(e, "png")
        || eq_ascii_lowercase(e, "webp") || eq_ascii_lowercase(e, "bmp") || eq_ascii_lowercase(
        e,
        "svg",
    ) || eq_ascii_lowercase(e, "heic") || eq_ascii_lowercase(e, "heif") || eq_ascii_lowercase(
        e,
        "avif",
    ) || eq_ascii_lowercase(e, "ico")
}

fn video_ext(e: &str) -> (r: bool)
    ensures
        r == is_video_ext(e@),
{
    eq_ascii_lowercase(e, "mp4") || eq_ascii_lowercase(e, "mkv") || eq_ascii_lowercase(e, "mov")
        || eq_ascii_lowercase(e, "avi") || eq_ascii_lowercase(e, "webm") || eq_ascii_lowercase(
        e,
        "flv",
    ) || eq_ascii_lowercase(e, "3gp") || eq_ascii_lowercase(e, "wmv") || eq_ascii_lowercase(
        e,
        "m4v",
    )
}

fn text_ext(e: &str) -> (r: bool)
    ensures
        r == is_text_ext(e@),
{
    eq_ascii_lowercase(e, "txt") || eq_ascii_lowercase(e, "md") || eq_ascii_lowercase(e, "json")
        || eq_ascii_lowercase(e, "csv") || eq_ascii_lowercase(e, "xml") || eq_ascii_lowercase(
        e,
        "log",
    ) || eq_ascii_lowercase(e, "pdf") || eq_ascii_lowercase(e, "html") || eq_ascii_lowercase(
        e,
        "css",
    ) || eq_ascii_lowercase(e, "js") || eq_ascii_lowercase(e, "py") || eq_ascii_lowercase(e, "rs")
}

/// The extension of `path`, or `""`.
fn extension_or_empty(path: &str) -> (r: &str)
    ensures
        r@ == extension_of(path@),
{
    let e = match extension(path) {
        Some(e) => e,
        None => "",
    };
    proof {
        reveal_strlit("");
        assert(e@ =~= extension_of(path@));
    }
    e
}

/// The suffix given to the vault file of the file at `path`: `-g.valv` for
/// GIFs, `-i.valv` for images, `-v.valv` for videos, `-x.valv` for text and
/// documents, and `-i.valv` for anything else.
pub fn get_suffix_for_path(path: &str) -> (r: &'static str)
    ensures
        r@ == suffix_for_extension(extension_of(path@)),
{
    let e = extension_or_empty(path);
    if eq_ascii_lowercase(e, "gif") {
        "-g.valv"
    } else if image_ext(e) {
        "-i.valv"
    } else if video_ext(e) {
        "-v.valv"
    } else if text_ext(e) {
        "-x.valv"
    } else {
        "-i.valv"
    }
}

/// Whether a thumbnail can be made for the file at `path`: an image or a video.
pub fn is_media_file(path: &str) -> (r: bool)
    ensures
        r == is_media_ext(extension_of(path@)),
{
    let e = extension_or_empty(path);
    eq_ascii_lowercase(e, "gif") || image_ext(e) || video_ext(e)
}

/// Characters random vault file names are made of.
pub const NAME_CHARSET: &'static str = "abcdefghijklmnopqrstuvwxyzABCDEFGHIJKLMNOPQRSTUVWXYZ0123456789";

/// Length of the random part of a vault file name.
pub const RANDOM_NAME_LEN: usize = 32;

/// `rand::random_range(0..n)` of the rand crate: some number below `n`.
/// The crate panics on an empty range; `requires` leaves it out.
#[verifier::external_body]
fn random_below(n: usize) -> (r: usize)
    requires
        n > 0,
    ensures
        r < n,
{
    rand::random_range(0..n)
}

/// Number of characters in `NAME_CHARSET`.
pub const NAME_CHARSET_LEN: usize = 62;

/// The vault file name spelled by `draws`: for each drawn number the
/// character at that place of `NAME_CHARSET`, then `suffix`.
pub open spec fn name_spelled_by(draws: Seq<usize>, suffix: Seq<char>) -> Seq<char> {
    Seq::new(draws.len(), |i: int| NAME_CHARSET@[draws[i] as int]) + suffix
}

/// The vault file name spelled by 32 numbers below `NAME_CHARSET_LEN`.
pub fn name_from_draws(draws: &[usize], suffix: &str) -> (r: String)
    requires
        draws@.len() == RANDOM_NAME_LEN,
        forall|i: int| 0 <= i < draws@.len() ==> #[trigger] draws@[i] < NAME_CHARSET_LEN,
    ensures
        r@ == name_spelled_by(draws@, suffix@),
{
    proof {
        reveal_strlit("abcdefghijklmnopqrstuvwxyzABCDEFGHIJKLMNOPQRSTUVWXYZ0123456789");
        reveal_strlit("");
    }
    let mut name = "".to_owned();
    let mut i: usize = 0;
    while i < draws.len()
        invariant
            i <= draws@.len(),
            NAME_CHARSET@.len() == NAME_CHARSET_LEN,
            forall|j: int| 0 <= j < draws@.len() ==> #[trigger] draws@[j] < NAME_CHARSET_LEN,
            name@ == Seq::new(i as nat, |j: int| NAME_CHARSET@[draws@[j] as int]),
        decreases draws@.len() - i,
    {
        let k = draws[i];
        let piece = NAME_CHARSET.substring_char(k, k + 1);
        let ghost before = name@;
        name.append(piece);
        proof {
            assert(name@ =~= Seq::new((i + 1) as nat, |j: int| NAME_CHARSET@[draws@[j] as int]));
        }
        i = i + 1;
    }
    name.append(suffix);
    name
}

/// A fresh vault file name: 32 letters and digits drawn at random, each
/// independently (`random_below`), then `suffix`.
pub fn generate_random_filename(suffix: &str) -> (r: String)
    ensures
        exists|draws: Seq<usize>|
            {
                &&& draws.len() == RANDOM_NAME_LEN
                &&& forall|i: int| 0 <= i < draws.len() ==> #[trigger] draws[i] < NAME_CHARSET_LEN
                &&& r@ == name_spelled_by(draws, suffix@)
            },
        r@.len() == RANDOM_NAME_LEN + suffix@.len(),
        r@.subrange(RANDOM_NAME_LEN as int, r@.len() as int) == suffix@,
        forall|i: int| 0 <= i < RANDOM_NAME_LEN ==> NAME_CHARSET@.contains(#[trigger] r@[i]),
{
    proof {
        reveal_strlit("abcdefghijklmnopqrstuvwxyzABCDEFGHIJKLMNOPQRSTUVWXYZ0123456789");
    }
    let mut draws: Vec<usize> = Vec::new();
    let mut i: usize = 0;
    while i < RANDOM_NAME_LEN
        invariant
            i <= RANDOM_NAME_LEN,
            draws@.len() == i,
            forall|j: int| 0 <= j < i ==> #[trigger] draws@[j] < NAME_CHARSET_LEN,
        decreases RANDOM_NAME_LEN - i,
    {
        draws.push(random_below(NAME_CHARSET_LEN));
        i = i + 1;
    }
    let r = name_from_draws(draws.as_slice(), suffix);
    proof {
        let d = draws@;
        assert(r@.subrange(RANDOM_NAME_LEN as int, r@.len() as int) =~= suffix@);
        assert forall|i: int| 0 <= i < RANDOM_NAME_LEN implies NAME_CHARSET@.contains(#[trigger] r@[i]) by {
            assert(r@[i] == NAME_CHARSET@[d[i] as int]);
        }
    }
    r
}

/// The name of the directory a vault is mounted at, under the user's mount
/// base: the vault directory's name (or `vault`), a dash, and the watched
/// process id.
pub open spec fn mount_dir_name(vault_dir: Seq<char>, watch_pid: u32) -> Seq<char> {
    (match std_file_name(vault_dir) {
        Some(n) => n,
        None => "vault"@,
    }) + "-"@ + decimal_digits(watch_pid as nat)
}

/// Where a vault is mounted: the custom output when one is given, else
/// `mount_base` joined with the mount directory name.
pub fn get_mount_dir(vault_dir: &str, watch_pid: u32, custom_output: Option<&str>, mount_base: &str) -> (r: String)
    ensures
        match custom_output {
            Some(out) => r@ == out@,
            None => r@ == std_join(mount_base@, mount_dir_name(vault_dir@, watch_pid)),
        },
{
    if let Some(out) = custom_output {
        return out.to_owned();
    }
    let label = match file_name(vault_dir) {
        Some(n) => n,
        None => "vault",
    };
    let mut name = label.to_owned();
    name.append("-");
    append_decimal(&mut name, watch_pid);
    join(mount_base, name.as_str())
}

/// The temporary name a vault file is written under before it replaces
/// `valv_name`: `.<valv_name>.tmp`.
pub fn temp_valv_name(valv_name: &str) -> (r: String)
    ensures
        r@ == "."@ + valv_name@ + ".tmp"@,
{
    let mut r = ".".to_owned();
    r.append(valv_name);
    r.append(".tmp");
    r
}


/// A seven-character vault suffix `-?.valv` put after `prefix`.
proof fn lemma_suffixed(prefix: Seq<char>, suffix: Seq<char>)
    requires
        suffix.len() == 7,
        suffix[0] == '-',
        suffix.subrange(2, 7) == ".valv"@,
        ".valv"@ == seq!['.', 'v', 'a', 'l', 'v'],
        "-t.valv"@ == seq!['-', 't', '.', 'v', 'a', 'l', 'v'],
    ensures
        is_valv_name(prefix + suffix),
        is_thumbnail_name(prefix + suffix) <==> suffix[1] == 't',
        seq_ends_with(prefix + suffix, suffix),
        strip_tail(prefix + suffix, suffix) == prefix,
{
    let n = prefix + suffix;
    assert(n.subrange(n.len() - 5, n.len() as int) =~= suffix.subrange(2, 7));
    assert(n.subrange(n.len() - 7, n.len() as int) =~= suffix);
    assert(strip_tail(n, suffix) =~= prefix);
    if suffix[1] == 't' {
        assert(suffix =~= "-t.valv"@);
    } else {
        assert(suffix[1] != "-t.valv"@[1]);
    }
}

/// Every full-size vault file name has a thumbnail name that is itself a
/// vault file name and a thumbnail name, and differs only in its suffix;
/// thumbnails, so, are never mounted in place of the files they preview.
pub proof fn lemma_thumbnail_names(name: Seq<char>)
    requires
        thumbnail_stem(name) is Some,
    ensures
        is_valv_name(thumbnail_stem(name)->0 + "-t.valv"@),
        is_thumbnail_name(thumbnail_stem(name)->0 + "-t.valv"@),
        !is_thumbnail_name(name),
{
    reveal_strlit(".valv");
    reveal_strlit("-t.valv");
    reveal_strlit("-i.valv");
    reveal_strlit("-g.valv");
    reveal_strlit("-v.valv");
    assert(".valv"@ =~= seq!['.', 'v', 'a', 'l', 'v']);
    assert("-t.valv"@ =~= seq!['-', 't', '.', 'v', 'a', 'l', 'v']);
    let stem = thumbnail_stem(name)->0;
    let t = "-t.valv"@;
    assert(t.subrange(2, 7) =~= ".valv"@);
    lemma_suffixed(stem, t);
    let s = if seq_ends_with(name, "-i.valv"@) {
        "-i.valv"@
    } else if seq_ends_with(name, "-g.valv"@) {
        "-g.valv"@
    } else {
        "-v.valv"@
    };
    assert(name.subrange(name.len() - 7, name.len() as int) == s);
    assert(name.subrange(name.len() - 7, name.len() as int)[1] == s[1]);
    assert(s[1] != 't');
    if is_thumbnail_name(name) {
        assert(name.subrange(name.len() - 7, name.len() as int)[1] == 't');
    }
}

/// The name `get_thumbnail_valv_name` gives for any `valv_name`, as a path,
/// is recognised by `is_thumbnail_valv_file`, whatever directories the name
/// carries.
pub proof fn lemma_thumbnail_name_recognised(valv_name: Seq<char>)
    requires
        thumbnail_stem(valv_name) is Some,
    ensures
        is_thumbnail_name(name_of(thumbnail_stem(valv_name)->0 + "-t.valv"@)),
{
    reveal_strlit("-t.valv");
    let t = "-t.valv"@;
    assert(t =~= seq!['-', 't', '.', 'v', 'a', 'l', 'v']);
    assert(!t.contains('/')) by {
        if t.contains('/') {
            let k = choose|k: int| 0 <= k < t.len() && t[k] == '/';
            assert(t[k] != '/');
        }
    }
    lemma_file_name_of_suffixed(thumbnail_stem(valv_name)->0, t);
}

/// Every path whose file name ends in `.valv` is a vault file, whatever the
/// name before the `.valv` and whatever directories precede it; and every
/// path whose file name starts with `.valv.` (a legacy v1 file) is one too.
pub proof fn lemma_valv_names_recognised(dirs: Seq<char>, stem: Seq<char>)
    requires
        !stem.contains('/'),
    ensures
        is_valv_name(name_of(dirs + stem + ".valv"@)),
        dirs.len() == 0 || dirs.last() == '/' ==> is_valv_name(name_of(dirs + ".valv."@ + stem)),
{
    reveal_strlit(".valv");
    reveal_strlit(".valv.");
    let v = ".valv"@;
    let v1 = ".valv."@;
    assert(v =~= seq!['.', 'v', 'a', 'l', 'v']);
    assert(v1 =~= seq!['.', 'v', 'a', 'l', 'v', '.']);
    let tail = stem + v;
    assert(!tail.contains('/')) by {
        if tail.contains('/') {
            let k = choose|k: int| 0 <= k < tail.len() && tail[k] == '/';
            if k < stem.len() {
                assert(stem[k] == '/');
            } else {
                assert(v[k - stem.len()] == '/');
            }
        }
    }
    assert(tail.len() > 2);
    assert(dirs + stem + v =~= dirs + tail);
    lemma_file_name_of_suffixed(dirs, tail);
    let n = name_of(dirs + tail);
    assert(n.subrange(n.len() - 5, n.len() as int) =~= n.subrange(n.len() - tail.len(), n.len() as int).subrange(
        tail.len() - 5,
        tail.len() as int,
    ));
    assert(tail.subrange(tail.len() - 5, tail.len() as int) =~= v);
    if dirs.len() == 0 || dirs.last() == '/' {
        let tail1 = v1 + stem;
        assert(!tail1.contains('/')) by {
            if tail1.contains('/') {
                let k = choose|k: int| 0 <= k < tail1.len() && tail1[k] == '/';
                if k < 6 {
                    assert(v1[k] == '/');
                } else {
                    assert(stem[k - 6] == '/');
                }
            }
        }
        assert(dirs + v1 + stem =~= dirs + tail1);
        lemma_file_name_of_suffixed(dirs, tail1);
        assert(tail1.subrange(0, 6) =~= v1);
    }
}

/// For a path that is a single file name `n` (no `/`, not empty, `.` or
/// `..`), being a vault file means exactly that `n` ends in `.valv` or
/// starts with `.valv.`.
pub proof fn lemma_valv_file_names(n: Seq<char>)
    requires
        !n.contains('/'),
        n.len() > 0,
        n != seq!['.'],
        n != seq!['.', '.'],
    ensures
        name_of(n) == n,
        is_valv_name(name_of(n)) <==> (seq_ends_with(n, ".valv"@) || seq_starts_with(n, ".valv."@)),
{
    lemma_file_name_of_suffixed(Seq::empty(), n);
    assert(Seq::<char>::empty() + n =~= n);
}

/// Every file `is_thumbnail_valv_file` recognises, `is_valv_file` recognises
/// too.
pub proof fn lemma_thumbnail_files_are_vault_files(path: Seq<char>)
    ensures
        is_thumbnail_name(name_of(path)) ==> is_valv_name(name_of(path)),
{
    reveal_strlit("-t.valv");
    reveal_strlit(".valv");
    let n = name_of(path);
    if is_thumbnail_name(n) {
        assert(n.subrange(n.len() - 5, n.len() as int) =~= n.subrange(n.len() - 7, n.len() as int).subrange(2, 7));
        assert("-t.valv"@.subrange(2, 7) =~= ".valv"@);
    }
}

/// A file the tool names `prefix` followed by the suffix chosen for its
/// extension is always taken for a vault file and never for a thumbnail;
/// it has a thumbnail companion exactly when it is an image, a GIF or a video.
pub proof fn lemma_new_vault_names(prefix: Seq<char>, ext: Seq<char>)
    ensures
        is_valv_name(prefix + suffix_for_extension(ext)),
        !is_thumbnail_name(prefix + suffix_for_extension(ext)),
        thumbnail_stem(prefix + suffix_for_extension(ext)) == (if suffix_for_extension(ext) == "-x.valv"@ {
            None
        } else {
            Some(prefix)
        }),
{
    reveal_strlit(".valv");
    reveal_strlit("-t.valv");
    reveal_strlit("-i.valv");
    reveal_strlit("-g.valv");
    reveal_strlit("-v.valv");
    reveal_strlit("-x.valv");
    assert(".valv"@ =~= seq!['.', 'v', 'a', 'l', 'v']);
    assert("-t.valv"@ =~= seq!['-', 't', '.', 'v', 'a', 'l', 'v']);
    let s = suffix_for_extension(ext);
    let n = prefix + s;
    assert(s.subrange(2, 7) =~= ".valv"@);
    lemma_suffixed(prefix, s);
    let tail = n.subrange(n.len() - 7, n.len() as int);
    assert(tail =~= s);
    if s == "-x.valv"@ {
        assert(tail[1] != "-i.valv"@[1]);
        assert(tail[1] != "-g.valv"@[1]);
        assert(tail[1] != "-v.valv"@[1]);
        assert(!seq_ends_with(n, "-i.valv"@));
        assert(!seq_ends_with(n, "-g.valv"@));
        assert(!seq_ends_with(n, "-v.valv"@));
    } else if s == "-i.valv"@ {
        assert(seq_ends_with(n, "-i.valv"@));
    } else if s == "-g.valv"@ {
        assert(tail[1] != "-i.valv"@[1]);
        assert(seq_ends_with(n, "-g.valv"@));
    } else {
        assert(tail[1] != "-i.valv"@[1]);
        assert(tail[1] != "-g.valv"@[1]);
        assert(seq_ends_with(n, "-v.valv"@));
    }
}


/// What is remembered of a file shown in a mounted vault: the vault file it
/// is stored in, and its modification time and size when last synchronized.
#[derive(Debug, Clone)]
pub struct SessionFileEntry {
    pub valv_name: String,
    pub mtime_secs: u64,
    pub size: u64,
}

impl View for SessionFileEntry {
    type V = (Seq<char>, u64, u64);

    open spec fn view(&self) -> (Seq<char>, u64, u64) {
        (self.valv_name@, self.mtime_secs, self.size)
    }
}

/// The files of a mounted vault, by the name they are shown under: a map
/// from file names to entries.
#[derive(Debug)]
pub struct SessionFiles {
    names: Vec<String>,
    entries: Vec<SessionFileEntry>,
}

impl SessionFiles {
    /// The file names in storage order.
    pub closed spec fn ordered_names(&self) -> Seq<Seq<char>> {
        Seq::new(self.names@.len(), |i: int| self.names@[i]@)
    }

    #[verifier::type_invariant]
    closed spec fn well_formed(&self) -> bool {
        &&& self.names@.len() == self.entries@.len()
        &&& self.ordered_names().no_duplicates()
    }

    closed spec fn entry_of(&self, name: Seq<char>) -> (Seq<char>, u64, u64) {
        self.entries@[self.ordered_names().index_of(name)]@
    }
}

impl View for SessionFiles {
    type V = Map<Seq<char>, (Seq<char>, u64, u64)>;

    closed spec fn view(&self) -> Map<Seq<char>, (Seq<char>, u64, u64)> {
        Map::new(|k: Seq<char>| self.ordered_names().contains(k), |k: Seq<char>| self.entry_of(k))
    }
}

impl SessionFiles {
    /// The entry stored at the place of `name`, which occurs once.
    proof fn lemma_entry_at(&self, i: int)
        requires
            self.well_formed(),
            0 <= i < self.names@.len(),
        ensures
            self@.contains_key(self.ordered_names()[i]),
            self@[self.ordered_names()[i]] == self.entries@[i]@,
    {
        let k = self.ordered_names()[i];
        assert(self.ordered_names().contains(k));
        let j = self.ordered_names().index_of(k);
        assert(self.ordered_names()[j] == k);
    }

    /// The names are the keys of the map, each once.
    proof fn lemma_names_are_keys(&self)
        requires
            self.well_formed(),
        ensures
            self.ordered_names().no_duplicates(),
            self.ordered_names().to_set() == self@.dom(),
            self.ordered_names().len() == self@.len(),
    {
        assert(self.ordered_names().to_set() =~= self@.dom());
        self.ordered_names().unique_seq_to_set();
    }

    /// No files.
    pub fn new() -> (r: Self)
        ensures
            r@ == Map::<Seq<char>, (Seq<char>, u64, u64)>::empty(),
    {
        let r = SessionFiles { names: Vec::new(), entries: Vec::new() };
        assert(r@ =~= Map::<Seq<char>, (Seq<char>, u64, u64)>::empty());
        r
    }

    /// Number of files.
    pub fn len(&self) -> (n: usize)
        ensures
            n == self@.len(),
            n == self.ordered_names().len(),
            self.ordered_names().no_duplicates(),
            self.ordered_names().to_set() == self@.dom(),
    {
        proof {
            use_type_invariant(self);
            self.lemma_names_are_keys();
        }
        self.names.len()
    }

    /// The name stored at place `i`.
    pub fn name_at(&self, i: usize) -> (r: &str)
        requires
            i < self@.len(),
        ensures
            r@ == self.ordered_names()[i as int],
            self@.contains_key(r@),
    {
        proof {
            use_type_invariant(self);
            self.lemma_names_are_keys();
            self.lemma_entry_at(i as int);
        }
        self.names[i].as_str()
    }

    /// The entry stored at place `i`.
    pub fn entry_at(&self, i: usize) -> (r: &SessionFileEntry)
        requires
            i < self@.len(),
        ensures
            r@ == self@[self.ordered_names()[i as int]],
    {
        proof {
            use_type_invariant(self);
            self.lemma_names_are_keys();
            self.lemma_entry_at(i as int);
        }
        &self.entries[i]
    }

    /// Where `name` is stored, if it is.
    fn find(&self, name: &str) -> (r: Option<usize>)
        ensures
            match r {
                Some(i) => i < self.names@.len() && self.ordered_names()[i as int] == name@,
                None => !self.ordered_names().contains(name@),
            },
    {
        let mut i: usize = 0;
        while i < self.names.len()
            invariant
                i <= self.names@.len(),
                forall|j: int| 0 <= j < i ==> self.ordered_names()[j] != name@,
            decreases self.names@.len() - i,
        {
            if crate::text::str_eq(self.names[i].as_str(), name) {
                return Some(i);
            }
            i = i + 1;
        }
        None
    }

    /// The entry of `name`, if the session has one.
    pub fn get(&self, name: &str) -> (r: Option<&SessionFileEntry>)
        ensures
            match r {
                Some(e) => self@.contains_key(name@) && e@ == self@[name@],
                None => !self@.contains_key(name@),
            },
    {
        proof {
            use_type_invariant(self);
        }
        match self.find(name) {
            Some(i) => {
                proof {
                    self.lemma_entry_at(i as int);
                }
                Some(&self.entries[i])
            },
            None => None,
        }
    }

    /// Records `entry` for `name`, replacing any earlier entry.
    pub fn insert(&mut self, name: String, entry: SessionFileEntry)
        ensures
            final(self)@ == old(self)@.insert(name@, entry@),
    {
        proof {
            use_type_invariant(&*self);
        }
        let ghost before = *self;
        match self.find(name.as_str()) {
            Some(i) => {
                let mut taken = SessionFiles::new();
                std::mem::swap(&mut taken, self);
                let SessionFiles { names, mut entries } = taken;
                entries.set(i, entry);
                *self = SessionFiles { names, entries };
                proof {
                    assert(self.ordered_names() =~= before.ordered_names());
                    assert forall|k: Seq<char>| #[trigger] self@.contains_key(k) implies self@[k] == before@.insert(name@, entry@)[k] by {
                        let j = self.ordered_names().index_of(k);
                        let j0 = before.ordered_names().index_of(k);
                        assert(self.ordered_names()[j] == k);
                        assert(before.ordered_names()[j0] == k);
                        assert(j == j0);
                        if k != name@ {
                            assert(j != i);
                        }
                    }
                    assert(self@ =~= before@.insert(name@, entry@));
                }
            },
            None => {
                let mut taken = SessionFiles::new();
                std::mem::swap(&mut taken, self);
                let SessionFiles { mut names, mut entries } = taken;
                names.push(name);
                entries.push(entry);
                proof {
                    assert(Seq::new(names@.len(), |j: int| names@[j]@) =~= before.ordered_names().push(name@));
                }
                *self = SessionFiles { names, entries };
                proof {
                    let n = before.names@.len() as int;
                    assert(self.ordered_names() =~= before.ordered_names().push(name@));
                    assert forall|k: Seq<char>| #[trigger] self@.contains_key(k) implies self@[k] == before@.insert(name@, entry@)[k] by {
                        let j = self.ordered_names().index_of(k);
                        assert(self.ordered_names()[j] == k);
                        if k == name@ {
                            assert(j == n);
                        } else {
                            assert(j < n);
                            assert(before.ordered_names().contains(k));
                            let j0 = before.ordered_names().index_of(k);
                            assert(before.ordered_names()[j0] == k);
                            assert(self.ordered_names()[j0] == k);
                            assert(j == j0);
                        }
                    }
                    assert forall|k: Seq<char>| #[trigger] before@.insert(name@, entry@).contains_key(k) implies self@.contains_key(k) by {
                        if k == name@ {
                            assert(self.ordered_names()[n] == k);
                        } else {
                            let j0 = before.ordered_names().index_of(k);
                            assert(self.ordered_names()[j0] == k);
                        }
                    }
                    assert(self@ =~= before@.insert(name@, entry@));
                }
            },
        }
    }

    /// Forgets `name`, returning its entry if it had one.
    pub fn remove(&mut self, name: &str) -> (r: Option<SessionFileEntry>)
        ensures
            final(self)@ == old(self)@.remove(name@),
            match r {
                Some(e) => old(self)@.contains_key(name@) && e@ == old(self)@[name@],
                None => !old(self)@.contains_key(name@),
            },
    {
        proof {
            use_type_invariant(&*self);
        }
        let ghost before = *self;
        match self.find(name) {
            Some(i) => {
                proof {
                    before.lemma_entry_at(i as int);
                }
                let mut taken = SessionFiles::new();
                std::mem::swap(&mut taken, self);
                let SessionFiles { mut names, mut entries } = taken;
                names.remove(i);
                let e = entries.remove(i);
                proof {
                    assert(Seq::new(names@.len(), |j: int| names@[j]@) =~= before.ordered_names().remove(i as int));
                }
                *self = SessionFiles { names, entries };
                proof {
                    let old_keys = before.ordered_names();
                    let keys = self.ordered_names();
                    assert(keys =~= old_keys.remove(i as int));
                    assert forall|k: Seq<char>| #[trigger] self@.contains_key(k) implies before@.remove(name@).contains_key(k) && self@[k] == before@.remove(name@)[k] by {
                        let j = keys.index_of(k);
                        assert(keys[j] == k);
                        let j0 = if j < i { j } else { j + 1 };
                        assert(old_keys[j0] == k);
                        assert(k != name@);
                        assert(before.ordered_names().contains(k));
                        let j1 = old_keys.index_of(k);
                        assert(old_keys[j1] == k);
                        assert(j1 == j0);
                    }
                    assert forall|k: Seq<char>| #[trigger] before@.remove(name@).contains_key(k) implies self@.contains_key(k) by {
                        let j0 = old_keys.index_of(k);
                        assert(old_keys[j0] == k);
                        assert(j0 != i);
                        let j = if j0 < i { j0 } else { j0 - 1 };
                        assert(keys[j] == k);
                    }
                    assert(self@ =~= before@.remove(name@));
                }
                Some(e)
            },
            None => {
                assert(self@ =~= before@.remove(name@));
                None
            },
        }
    }
}

/// The names at the places that `present` marks false.
pub open spec fn missing_names(names: Seq<Seq<char>>, present: Seq<bool>) -> Set<Seq<char>> {
    Set::new(
        |k: Seq<char>|
            exists|j: int| 0 <= j < names.len() && j < present.len() && !present[j] && names[j] == k,
    )
}

/// The vault files that hold a stored file: its vault file, then its
/// thumbnail vault file when it has one.
pub open spec fn vault_files_of(valv_name: Seq<char>) -> Seq<Seq<char>> {
    match thumbnail_stem(valv_name) {
        Some(stem) => seq![valv_name, stem + "-t.valv"@],
        None => seq![valv_name],
    }
}

/// The vault files of the first `n` stored files whose places `present`
/// marks false, in storage order.
pub open spec fn doomed_files(valv_names: Seq<Seq<char>>, present: Seq<bool>, n: int) -> Seq<Seq<char>>
    decreases n,
{
    if n <= 0 {
        Seq::empty()
    } else {
        doomed_files(valv_names, present, n - 1) + if present[n - 1] {
            Seq::empty()
        } else {
            vault_files_of(valv_names[n - 1])
        }
    }
}

impl SessionFiles {
    /// The vault file names of the entries, in storage order.
    pub open spec fn stored_valv_names(&self) -> Seq<Seq<char>> {
        Seq::new(self.ordered_names().len(), |i: int| self@[self.ordered_names()[i]].0)
    }

    /// Forgets every file whose place `present` marks false (files that are
    /// gone from the mount), and returns the vault files that held them, with
    /// their thumbnails, for deletion.
    pub fn remove_missing(&mut self, present: &Vec<bool>) -> (r: Vec<String>)
        requires
            present@.len() == old(self)@.len(),
        ensures
            final(self)@ == old(self)@.remove_keys(missing_names(old(self).ordered_names(), present@)),
            r@.map_values(|s: String| s@) == doomed_files(
                old(self).stored_valv_names(),
                present@,
                present@.len() as int,
            ),
    {
        proof {
            use_type_invariant(&*self);
            self.lemma_names_are_keys();
        }
        let ghost before = *self;
        let ghost names0 = self.ordered_names();
        let ghost valvs = self.stored_valv_names();
        let n = self.names.len();
        let mut names: Vec<String> = Vec::new();
        let mut i: usize = 0;
        while i < n
            invariant
                i <= n,
                n == names0.len(),
                self.names@.len() == n,
                self.ordered_names() == names0,
                names@.len() == i,
                forall|j: int| 0 <= j < i ==> #[trigger] names@[j]@ == names0[j],
            decreases n - i,
        {
            names.push(self.names[i].clone());
            i = i + 1;
        }
        let mut out: Vec<String> = Vec::new();
        let mut i: usize = 0;
        while i < n
            invariant
                i <= n,
                n == names0.len(),
                present@.len() == n,
                names@.len() == n,
                forall|j: int| 0 <= j < n ==> #[trigger] names@[j]@ == names0[j],
                names0.no_duplicates(),
                names0.to_set() == before@.dom(),
                valvs == Seq::new(n as nat, |j: int| before@[names0[j]].0),
                self@ == before@.remove_keys(missing_names(names0.take(i as int), present@)),
                out@.map_values(|s: String| s@) == doomed_files(valvs, present@, i as int),
            decreases n - i,
        {
            let ghost gone = missing_names(names0.take(i as int), present@);
            let ghost gone_next = missing_names(names0.take(i + 1), present@);
            let ghost k = names0[i as int];
            proof {
                assert(names0.to_set().contains(k));
                assert(!gone.contains(k)) by {
                    if gone.contains(k) {
                        let j = choose|j: int|
                            0 <= j < names0.take(i as int).len() && j < present@.len() && !present@[j]
                                && names0.take(i as int)[j] == k;
                        assert(names0[j] == names0[i as int]);
                    }
                }
                assert forall|x: Seq<char>| #[trigger] gone_next.contains(x) <==> (gone.contains(x) || (x == k
                    && !present@[i as int])) by {
                    if gone_next.contains(x) {
                        let j = choose|j: int|
                            0 <= j < names0.take(i + 1).len() && j < present@.len() && !present@[j]
                                && names0.take(i + 1)[j] == x;
                        if j < i {
                            assert(names0.take(i as int)[j] == x);
                        }
                    }
                    if gone.contains(x) {
                        let j = choose|j: int|
                            0 <= j < names0.take(i as int).len() && j < present@.len() && !present@[j]
                                && names0.take(i as int)[j] == x;
                        assert(names0.take(i + 1)[j] == x);
                    }
                    if x == k && !present@[i as int] {
                        assert(names0.take(i + 1)[i as int] == x);
                    }
                }
            }
            if !present[i] {
                let removed = self.remove(names[i].as_str());
                proof {
                    assert(self@ =~= before@.remove_keys(gone_next));
                }
                match removed {
                    Some(e) => {
                        let v = e.valv_name;
                        let thumb = get_thumbnail_valv_name(v.as_str());
                        let ghost out_before = out@.map_values(|s: String| s@);
                        out.push(v);
                        match thumb {
                            Some(t) => {
                                out.push(t);
                            },
                            None => {},
                        }
                        proof {
                            assert(valvs[i as int] == v@);
                            assert(out@.map_values(|s: String| s@) =~= out_before + vault_files_of(v@));
                        }
                    },
                    None => {},
                }
            } else {
                proof {
                    assert(self@ =~= before@.remove_keys(gone_next));
                    assert(out@.map_values(|s: String| s@) =~= doomed_files(valvs, present@, i + 1));
                }
            }
            i = i + 1;
        }
        proof {
            assert(names0.take(n as int) =~= names0);
        }
        out
    }
}

/// What to do with a file found in a mounted vault.
#[derive(Debug, Clone, PartialEq, Eq)]
pub enum SyncAction {
    /// Unchanged since it was last stored.
    Unchanged,
    /// Changed: store it again in the vault file it already has.
    Update(String),
    /// New: store it in a fresh vault file.
    Create,
}

/// `action` is what is done with the file `name`, found with the given
/// modification time and size, in a session whose files are `files`: a new
/// name is stored in a fresh vault file, a changed one again in its own vault
/// file, and an unchanged one is left alone.
pub open spec fn plans(
    action: SyncAction,
    files: Map<Seq<char>, (Seq<char>, u64, u64)>,
    name: Seq<char>,
    mtime_secs: u64,
    size: u64,
) -> bool {
    if files.contains_key(name) {
        if files[name].1 != mtime_secs || files[name].2 != size {
            action matches SyncAction::Update(v) && v@ == files[name].0
        } else {
            action is Unchanged
        }
    } else {
        action is Create
    }
}

impl SessionFiles {
    /// Decides what to do with the file `name` found with the given
    /// modification time and size.
    pub fn plan_sync(&self, name: &str, mtime_secs: u64, size: u64) -> (r: SyncAction)
        ensures
            plans(r, self@, name@, mtime_secs, size),
    {
        match self.get(name) {
            Some(e) => {
                if e.mtime_secs != mtime_secs || e.size != size {
                    SyncAction::Update(e.valv_name.clone())
                } else {
                    SyncAction::Unchanged
                }
            },
            None => SyncAction::Create,
        }
    }
}

/// Whether a file in a mounted vault is one of the user's files: hidden
/// names (the session file, the close request, temporary files) never are.
pub fn is_tracked_name(name: &str) -> (r: bool)
    ensures
        r == !seq_starts_with(name@, "."@),
{
    !starts_with(name, ".")
}


/// The state of a mounted vault, as saved in its session file.
#[derive(Debug)]
pub struct ValvSession {
    pub vault_dir: String,
    pub watch_pid: Option<u32>,
    pub daemon_pid: u32,
    pub files: SessionFiles,
}

impl Default for ValvSession {
    fn default() -> (r: Self)
        ensures
            r.vault_dir@ == Seq::<char>::empty(),
            r.watch_pid is None,
            r.daemon_pid == 0,
            r.files@ == Map::<Seq<char>, (Seq<char>, u64, u64)>::empty(),
    {
        ValvSession { vault_dir: String::new(), watch_pid: None, daemon_pid: 0, files: SessionFiles::new() }
    }
}

/// What mounting does with a vault file once its header has been read.
#[derive(Debug, Clone, Copy, PartialEq, Eq, Structural)]
pub enum MountStep {
    /// The header was read: decrypt the file into the mount.
    Decrypt,
    /// The header could not be read for another reason: leave the file out
    /// and go on.
    Skip,
    /// The password is wrong: the mount is refused (and removed, if it was
    /// already made).
    Refuse,
}

/// Decides what mounting does with a vault file from the outcome of reading
/// its header: a wrong password refuses the whole mount, any other failure
/// leaves the file out. The password is checked this way on the first vault
/// file before the mount directory is made, where only a refusal stops.
pub fn mount_step<T>(header: &Result<T, DecryptError>) -> (r: MountStep)
    ensures
        r == match header {
            Ok(_) => MountStep::Decrypt,
            Err(DecryptError::InvalidPassword) => MountStep::Refuse,
            Err(_) => MountStep::Skip,
        },
{
    match header {
        Ok(_) => MountStep::Decrypt,
        Err(DecryptError::InvalidPassword) => MountStep::Refuse,
        Err(_) => MountStep::Skip,
    }
}

/// A vault mounted by some session of the current user.
#[derive(Debug, Clone, PartialEq, Eq)]
pub struct ActiveMount {
    pub mount_dir: String,
    pub vault_dir: String,
    pub daemon_pid: u32,
    pub watch_pid: Option<u32>,
    pub file_count: usize,
}

impl ActiveMount {
    /// The mount at `mount_dir` described by its session.
    pub fn from_session(mount_dir: String, session: &ValvSession) -> (r: Self)
        ensures
            r.mount_dir@ == mount_dir@,
            r.vault_dir@ == session.vault_dir@,
            r.daemon_pid == session.daemon_pid,
            r.watch_pid == session.watch_pid,
            r.file_count == session.files@.len(),
    {
        ActiveMount {
            mount_dir,
            vault_dir: session.vault_dir.clone(),
            daemon_pid: session.daemon_pid,
            watch_pid: session.watch_pid,
            file_count: session.files.len(),
        }
    }
}

/// After `insert` records a file with its modification time and size,
/// `plan_sync` leaves the file alone while that time and size stay the same,
/// and stores it again in the same vault file once either changes; after
/// `remove` forgets it, `plan_sync` stores it anew.
pub proof fn lemma_sync_after_store(
    files: Map<Seq<char>, (Seq<char>, u64, u64)>,
    name: Seq<char>,
    valv_name: Seq<char>,
    mtime_secs: u64,
    size: u64,
    later_mtime: u64,
    later_size: u64,
    action: SyncAction,
)
    ensures
        ({
            let stored = files.insert(name, (valv_name, mtime_secs, size));
            &&& plans(action, stored, name, mtime_secs, size) ==> action is Unchanged
            &&& plans(action, stored, name, later_mtime, later_size) && (later_mtime != mtime_secs
                || later_size != size) ==> (action matches SyncAction::Update(v) && v@ == valv_name)
            &&& plans(action, stored.remove(name), name, later_mtime, later_size) ==> action is Create
        }),
{
}

} // verus!

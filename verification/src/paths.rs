//! The parts of `std::path` the library relies on, over paths held as text.
//! File names, extensions and joins are stated as `std::path` documents them
//! for Unix paths (`/` is the only separator, a path is absolute when it
//! starts with `/`); the parent of a path is named and nothing more is stated
//! of it.
use vstd::prelude::*;

verus! {

/// Index of the last `c` in `s`, or -1 when `s` holds none.
pub open spec fn last_index_of(s: Seq<char>, c: char) -> int
    decreases s.len(),
{
    if s.len() == 0 {
        -1
    } else if s.last() == c {
        s.len() - 1
    } else {
        last_index_of(s.drop_last(), c)
    }
}

/// `last_index_of` is an index of `c`, and no `c` comes after it.
pub proof fn lemma_last_index_of(s: Seq<char>, c: char)
    ensures
        -1 <= last_index_of(s, c) < s.len(),
        last_index_of(s, c) >= 0 ==> s[last_index_of(s, c)] == c,
        forall|i: int| last_index_of(s, c) < i < s.len() ==> s[i] != c,
    decreases s.len(),
{
    if s.len() > 0 && s.last() != c {
        let t = s.drop_last();
        lemma_last_index_of(t, c);
        assert forall|i: int| last_index_of(s, c) < i < s.len() implies s[i] != c by {
            if i < t.len() {
                assert(s[i] == t[i]);
            }
        }
    }
}

/// A tail without `c` leaves the last `c` where it was.
proof fn lemma_last_index_of_append(head: Seq<char>, tail: Seq<char>, c: char)
    requires
        !tail.contains(c),
    ensures
        last_index_of(head + tail, c) == last_index_of(head, c),
    decreases tail.len(),
{
    if tail.len() > 0 {
        let t = tail.drop_last();
        assert(!t.contains(c)) by {
            if t.contains(c) {
                let k = choose|k: int| 0 <= k < t.len() && t[k] == c;
                assert(tail[k] == c);
            }
        }
        lemma_last_index_of_append(head, t, c);
        assert((head + tail).drop_last() =~= head + t);
        assert((head + tail).last() == tail.last());
        assert(tail[tail.len() - 1] != c);
    } else {
        assert(head + tail =~= head);
    }
}

/// A path that ends in a component `tail` (no `/` in it, not empty, `.` or
/// `..`) has a file name, and that name ends in `tail`; it is `tail` itself
/// when what comes before ends with a separator or is empty.
pub proof fn lemma_file_name_of_suffixed(head: Seq<char>, tail: Seq<char>)
    requires
        !tail.contains('/'),
        tail.len() > 0,
        tail != seq!['.'],
        tail != seq!['.', '.'],
    ensures
        std_file_name(head + tail) matches Some(n) && n.len() >= tail.len() && n.subrange(
            n.len() - tail.len(),
            n.len() as int,
        ) == tail,
        head.len() == 0 || head.last() == '/' ==> std_file_name(head + tail) == Some(tail),
{
    let p = head + tail;
    lemma_last_index_of_append(head, tail, '/');
    lemma_last_index_of(head, '/');
    let cut = last_index_of(p, '/');
    let seg = p.subrange(cut + 1, p.len() as int);
    assert(seg.len() >= tail.len());
    assert(seg.subrange(seg.len() - tail.len(), seg.len() as int) =~= tail);
    if seg.len() == tail.len() {
        assert(seg =~= tail);
    } else {
        assert(seg.len() >= 2);
        assert(seg != seq!['.']);
        assert(seg != seq!['.', '.']) by {
            if seg == seq!['.', '.'] {
                assert(tail.len() == 1);
                assert(tail =~= seq!['.']);
            }
        }
    }
    assert(std_file_name(p) == Some(seg));
    if head.len() == 0 || head.last() == '/' {
        assert(cut == head.len() - 1);
        assert(seg =~= tail);
    }
}

/// A path made of a name part and `.ext` (the name part not empty and not
/// ending in `/`, the extension not empty and free of `/` and `.`) has the
/// extension `ext`.
pub proof fn lemma_extension_of_suffixed(head: Seq<char>, ext: Seq<char>)
    requires
        head.len() > 0,
        head.last() != '/',
        ext.len() > 0,
        !ext.contains('/'),
        !ext.contains('.'),
    ensures
        std_extension(head + seq!['.'] + ext) == Some(ext),
{
    let dot_ext = seq!['.'] + ext;
    let p = head + seq!['.'] + ext;
    assert(p =~= head + dot_ext);
    assert(!dot_ext.contains('/')) by {
        if dot_ext.contains('/') {
            let k = choose|k: int| 0 <= k < dot_ext.len() && dot_ext[k] == '/';
            assert(ext[k - 1] == '/');
        }
    }
    lemma_last_index_of_append(head, dot_ext, '/');
    lemma_last_index_of(head, '/');
    let cut = last_index_of(head, '/');
    assert(cut < head.len() - 1);
    let x = head.subrange(cut + 1, head.len() as int);
    let seg = p.subrange(cut + 1, p.len() as int);
    assert(seg =~= x + seq!['.'] + ext);
    assert(seg.len() >= 3);
    assert(seg != seq!['.']);
    assert(seg != seq!['.', '.']);
    assert(std_file_name(p) == Some(seg));
    let xd = x + seq!['.'];
    assert(seg =~= xd + ext);
    lemma_last_index_of_append(xd, ext, '.');
    assert(last_index_of(xd, '.') == x.len()) by {
        assert(xd.last() == '.');
    }
    assert(seg.subrange(x.len() + 1int, seg.len() as int) =~= ext);
}

/// `Path::file_name`: the final component of the path, where repeated
/// separators and `.` components are passed over; `None` when the path has
/// no such component (`""`, `"/"`, `"."`) or ends in `..`.
pub open spec fn std_file_name(path: Seq<char>) -> Option<Seq<char>>
    decreases path.len(),
{
    let cut = last_index_of(path, '/');
    let seg = path.subrange(cut + 1, path.len() as int);
    if seg.len() == 0 || seg == seq!['.'] {
        if cut < 0 {
            None
        } else {
            proof {
                lemma_last_index_of(path, '/');
            }
            std_file_name(path.subrange(0, cut))
        }
    } else if seg == seq!['.', '.'] {
        None
    } else {
        Some(seg)
    }
}

/// `Path::extension`: what follows the last `.` of the file name; `None`
/// when there is no file name, no `.` in it, or only a leading one.
pub open spec fn std_extension(path: Seq<char>) -> Option<Seq<char>> {
    match std_file_name(path) {
        Some(name) => {
            let dot = last_index_of(name, '.');
            if dot <= 0 {
                None
            } else {
                Some(name.subrange(dot + 1, name.len() as int))
            }
        },
        None => None,
    }
}

/// `Path::parent` of the path, as text.
pub uninterp spec fn std_parent(path: Seq<char>) -> Option<Seq<char>>;

/// `path` has a `.` or `..` component starting at `i`.
pub open spec fn dot_component_at(path: Seq<char>, i: int) -> bool {
    &&& 0 <= i < path.len()
    &&& i == 0 || path[i - 1] == '/'
    &&& path[i] == '.'
    &&& (i + 1 == path.len() || path[i + 1] == '/' || (path[i + 1] == '.' && (i + 2 == path.len()
        || path[i + 2] == '/')))
}

/// A path written plainly: not empty, no empty component (no `//`, no
/// trailing `/`), no `.` or `..` component.
pub open spec fn plain_path(path: Seq<char>) -> bool {
    &&& path.len() > 0
    &&& path.last() != '/'
    &&& forall|i: int| 0 <= i < path.len() - 1 ==> !(path[i] == '/' && #[trigger] path[i + 1] == '/')
    &&& forall|i: int| !#[trigger] dot_component_at(path, i)
}

/// A plain path without its final component: what precedes the last `/`,
/// `/` itself when that is the root, and the empty path for a single
/// relative component.
pub open spec fn plain_parent(path: Seq<char>) -> Seq<char> {
    let cut = last_index_of(path, '/');
    if cut < 0 {
        Seq::empty()
    } else if cut == 0 {
        seq!['/']
    } else {
        path.subrange(0, cut)
    }
}

/// `Path::join`: an absolute `path` replaces `base`; otherwise `path` is
/// added after `base`, with a `/` between them unless `base` is empty or
/// already ends with one.
pub open spec fn std_join(base: Seq<char>, path: Seq<char>) -> Seq<char> {
    if path.len() > 0 && path[0] == '/' {
        path
    } else if base.len() == 0 || base.last() == '/' {
        base + path
    } else {
        base + seq!['/'] + path
    }
}

/// Calls `std::path::Path::file_name`; claimed: the result is
/// `std_file_name` of the path (a component of a `&str` path is always valid
/// text, so the conversion back to `&str` loses no name).
#[verifier::external_body]
pub(crate) fn file_name(path: &str) -> (r: Option<&str>)
    ensures
        match r {
            Some(n) => std_file_name(path@) == Some(n@),
            None => std_file_name(path@) is None,
        },
{
    match std::path::Path::new(path).file_name() {
        Some(n) => n.to_str(),
        None => None,
    }
}

/// Calls `std::path::Path::extension`; claimed: the result is
/// `std_extension` of the path.
#[verifier::external_body]
pub(crate) fn extension(path: &str) -> (r: Option<&str>)
    ensures
        match r {
            Some(e) => std_extension(path@) == Some(e@),
            None => std_extension(path@) is None,
        },
{
    match std::path::Path::new(path).extension() {
        Some(e) => e.to_str(),
        None => None,
    }
}

/// Calls `std::path::Path::parent`; claimed: the result is the named
/// `std_parent` of the path (a function of the path alone), which is `None`
/// for the empty path and the root, and for a plain path is the path
/// without its final component (`plain_parent`), as the documentation of
/// `Path::parent` says. For paths with repeated or trailing separators or
/// `.` and `..` components nothing more is stated.
#[verifier::external_body]
pub(crate) fn parent(path: &str) -> (r: Option<&str>)
    ensures
        match r {
            Some(p) => {
                &&& std_parent(path@) == Some(p@)
                &&& path@.len() > 0 && path@ != seq!['/']
                &&& plain_path(path@) ==> p@ == plain_parent(path@)
            },
            None => std_parent(path@) is None && !plain_path(path@),
        },
{
    match std::path::Path::new(path).parent() {
        Some(p) => p.to_str(),
        None => None,
    }
}

/// Calls `std::path::Path::join`; claimed: the result is `std_join` of the
/// two paths (joining two text paths gives text, so the lossy conversion
/// loses nothing).
#[verifier::external_body]
pub(crate) fn join(base: &str, path: &str) -> (r: String)
    ensures
        r@ == std_join(base@, path@),
{
    std::path::Path::new(base).join(path).to_string_lossy().into_owned()
}

} // verus!

use vstd::prelude::*;
use vstd::string::*;

verus! {

/// The last segment of a `/`-separated path: the text after the last `/`.
pub open spec fn last_segment(path: Seq<char>) -> Seq<char>
    decreases path.len(),
{
    if path.len() == 0 {
        path
    } else if path.last() == '/' {
        Seq::empty()
    } else {
        last_segment(path.drop_last()).push(path.last())
    }
}

/// The text after the last `.`, if there is a `.`.
pub open spec fn after_last_dot(name: Seq<char>) -> Option<Seq<char>>
    decreases name.len(),
{
    if name.len() == 0 {
        None
    } else if name.last() == '.' {
        Some(Seq::empty())
    } else {
        match after_last_dot(name.drop_last()) {
            Some(e) => Some(e.push(name.last())),
            None => None,
        }
    }
}

/// The extension of a file path, as `Path::extension` gives it for a path
/// whose last segment is a plain file name (as the segments of a request path
/// are): the text after the last `.` of the last segment; none when that
/// segment has no `.`, when its only `.` is the leading one, or when it is
/// `..`.
pub open spec fn file_extension(path: Seq<char>) -> Option<Seq<char>> {
    let name = last_segment(path);
    if name == seq!['.', '.'] {
        None
    } else {
        match after_last_dot(name) {
            None => None,
            Some(ext) => if ext.len() + 1 == name.len() {
                None
            } else {
                Some(ext)
            },
        }
    }
}

/// What rocket's `ContentType::from_extension` gives for `ext`, written as the
/// Content-Type header value.
pub uninterp spec fn extension_media_type(ext: Seq<char>) -> Option<Seq<char>>;

/// The media type that rocket's `ContentType::from_extension` knows for the
/// extension `ext` (matched ignoring case), as its header text. Trusted: the
/// result is `extension_media_type(ext)`; which extensions are known is left
/// to that name.
#[verifier::external_body]
fn media_type_for_extension(ext: &str) -> (r: Option<String>)
    ensures
        r is Some <==> extension_media_type(ext@) is Some,
        r matches Some(t) ==> extension_media_type(ext@) == Some(t@),
{
    match rocket::http::ContentType::from_extension(ext) {
        Some(content_type) => Some(content_type.to_string()),
        None => None,
    }
}

/// The media type served for unknown files: raw bytes.
pub open spec fn octet_stream() -> Seq<char> {
    "application/octet-stream"@
}

/// The media type served for the file at `path`: the one known for its
/// extension, or raw bytes when it has no extension or an unknown one.
pub open spec fn asset_media_type_spec(path: Seq<char>) -> Seq<char> {
    match file_extension(path) {
        Some(e) => match extension_media_type(e) {
            Some(t) => t,
            None => octet_stream(),
        },
        None => octet_stream(),
    }
}

proof fn lemma_step(p: Seq<char>, i: int)
    requires
        0 <= i < p.len(),
    ensures
        p.take(i + 1).drop_last() == p.take(i),
        p.take(i + 1).last() == p[i],
{
    assert(p.take(i + 1).drop_last() =~= p.take(i));
}

/// Finds the extension of `path` (see `file_extension`).
pub fn path_extension(path: &str) -> (r: Option<&str>)
    ensures
        match file_extension(path@) {
            Some(e) => r matches Some(x) && x@ == e,
            None => r is None,
        },
{
    let n = path.unicode_len();
    let ghost p = path@;
    // `start` is where the last segment begins; `dot` is the position of the
    // last `.` within it.
    let mut start: usize = 0;
    let mut dot: Option<usize> = None;
    let mut i: usize = 0;
    assert(p.take(0) =~= Seq::<char>::empty());
    while i < n
        invariant
            n == p.len(),
            p == path@,
            start <= i <= n,
            last_segment(p.take(i as int)) == p.subrange(start as int, i as int),
            match dot {
                Some(d) => start <= d < i && after_last_dot(p.subrange(start as int, i as int)) == Some(
                    p.subrange(d + 1, i as int),
                ),
                None => after_last_dot(p.subrange(start as int, i as int)) is None,
            },
        decreases n - i,
    {
        let c = path.get_char(i);
        proof {
            lemma_step(p, i as int);
        }
        if c == '/' {
            start = i + 1;
            dot = None;
            assert(p.subrange(start as int, i + 1) =~= Seq::<char>::empty());
        } else {
            let ghost seg = p.subrange(start as int, i as int);
            assert(p.subrange(start as int, i + 1) =~= seg.push(c));
            assert(seg.push(c).drop_last() =~= seg);
            if c == '.' {
                dot = Some(i);
                assert(p.subrange(i + 1, i + 1) =~= Seq::<char>::empty());
            } else {
                match dot {
                    Some(d) => {
                        assert(p.subrange(d + 1, i + 1) =~= p.subrange(d + 1, i as int).push(c));
                    },
                    None => {},
                }
            }
        }
        i = i + 1;
    }
    assert(p.take(n as int) =~= p);
    let seg_len = n - start;
    match dot {
        None => {
            if seg_len == 2 {
                assert(p.subrange(start as int, n as int) != seq!['.', '.']) by {
                    if p.subrange(start as int, n as int) == seq!['.', '.'] {
                        assert(p.subrange(start as int, n as int).last() == '.');
                    }
                }
            }
            None
        },
        Some(d) => {
            let name_is_parent = seg_len == 2 && d == start + 1 && path.get_char(start) == '.';
            if name_is_parent {
                assert(p.subrange(start as int, n as int) =~= seq!['.', '.']);
                None
            } else if d == start {
                None
            } else {
                if seg_len == 2 && d == start + 1 {
                    assert(p.subrange(start as int, n as int)[0] != '.');
                }
                Some(path.substring_char(d + 1, n))
            }
        },
    }
}

/// The media type that the asset handler serves for the file at `path`.
pub fn asset_media_type(path: &str) -> (r: String)
    ensures
        r@ == asset_media_type_spec(path@),
        file_extension(path@) matches Some(e) ==> (extension_media_type(e) matches Some(t) ==> r@ == t),
        file_extension(path@) matches Some(e) ==> (extension_media_type(e) is None ==> r@
            == "application/octet-stream"@),
        file_extension(path@) is None ==> r@ == "application/octet-stream"@,
{
    match path_extension(path) {
        Some(ext) => match media_type_for_extension(ext) {
            Some(t) => t,
            None => String::from_str("application/octet-stream"),
        },
        None => String::from_str("application/octet-stream"),
    }
}

proof fn lemma_last_segment_after_slash(x: Seq<char>, y: Seq<char>)
    requires
        x.len() == 0 || x.last() == '/',
        forall|k: int| 0 <= k < y.len() ==> y[k] != '/',
    ensures
        last_segment(x + y) == y,
    decreases y.len(),
{
    if y.len() == 0 {
        assert(x + y =~= x);
    } else {
        assert((x + y).drop_last() =~= x + y.drop_last());
        lemma_last_segment_after_slash(x, y.drop_last());
        assert((x + y).last() == y.last());
        assert(y.drop_last().push(y.last()) =~= y);
    }
}

proof fn lemma_after_last_dot(a: Seq<char>, e: Seq<char>)
    requires
        forall|k: int| 0 <= k < e.len() ==> e[k] != '.',
    ensures
        after_last_dot(a + seq!['.'] + e) == Some(e),
    decreases e.len(),
{
    if e.len() == 0 {
        assert(a + seq!['.'] + e =~= a.push('.'));
    } else {
        assert((a + seq!['.'] + e).drop_last() =~= a + seq!['.'] + e.drop_last());
        lemma_after_last_dot(a, e.drop_last());
        assert((a + seq!['.'] + e).last() == e.last());
        assert(e.drop_last().push(e.last()) =~= e);
    }
}

/// A file `stem.ext` (in any directory) has the extension `ext`, and it is
/// served with the media type that rocket knows for `ext`, however long `ext`
/// is, or as raw bytes when rocket knows none.
pub proof fn served_type_follows_extension(prefix: Seq<char>, stem: Seq<char>, ext: Seq<char>)
    requires
        prefix.len() == 0 || prefix.last() == '/',
        stem.len() > 0,
        stem[0] != '.',
        forall|k: int| 0 <= k < stem.len() ==> stem[k] != '/',
        forall|k: int| 0 <= k < ext.len() ==> ext[k] != '/' && ext[k] != '.',
    ensures
        file_extension(prefix + stem + seq!['.'] + ext) == Some(ext),
        extension_media_type(ext) matches Some(t) ==> asset_media_type_spec(
            prefix + stem + seq!['.'] + ext,
        ) == t,
        extension_media_type(ext) is None ==> asset_media_type_spec(prefix + stem + seq!['.'] + ext)
            == "application/octet-stream"@,
{
    let name = stem + seq!['.'] + ext;
    assert(prefix + stem + seq!['.'] + ext =~= prefix + name);
    assert forall|k: int| 0 <= k < name.len() implies name[k] != '/' by {
        if k < stem.len() {
            assert(name[k] == stem[k]);
        } else if k > stem.len() {
            assert(name[k] == ext[k - stem.len() - 1]);
        }
    }
    lemma_last_segment_after_slash(prefix, name);
    lemma_after_last_dot(stem, ext);
    if name == seq!['.', '.'] {
        assert(name[0] == stem[0]);
    }
}

} // verus!

//! Image references: where an image lives (registry host and repository
//! path) and which of its manifests is wanted (a tag or a digest).

use vstd::prelude::*;

use crate::text::{
    append_chars, chars_of, contains_char, find_first, find_last, lemma_find_first,
    lemma_find_last, position_first, position_last, same_chars, slice_of, string_of,
};

verus! {

/// The position of the last `c` in `s`, or 0 where there is none.
pub open spec fn last_or_zero(s: Seq<char>, c: char) -> int {
    match find_last(s, c) {
        Some(i) => i,
        None => 0,
    }
}

/// A reference split into the image name and the selector (tag or digest).
///
/// A selector starts after the last `@` or `:` that follows the last `/`; a
/// digest (`@`) wins over a tag, which is then dropped. Without either the
/// selector is `latest`.
pub open spec fn split_reference(s: Seq<char>) -> (Seq<char>, Seq<char>) {
    let sep = last_or_zero(s, '/');
    let dig = last_or_zero(s, '@');
    let lbl = last_or_zero(s, ':');
    if dig > sep {
        let name = s.subrange(0, dig);
        let tag = last_or_zero(name, ':');
        (
            if tag > sep {
                name.subrange(0, tag)
            } else {
                name
            },
            s.subrange(dig + 1, s.len() as int),
        )
    } else if lbl > sep {
        (s.subrange(0, lbl), s.subrange(lbl + 1, s.len() as int))
    } else {
        (s, "latest"@)
    }
}

/// Whether a first path segment names a registry host.
pub open spec fn is_host(seg: Seq<char>) -> bool {
    seg.contains('.') || seg.contains(':') || seg == "localhost"@
}

/// An image name split into its registry host and its repository.
pub open spec fn split_host(name: Seq<char>) -> (Seq<char>, Seq<char>) {
    match find_first(name, '/') {
        Some(n) => if is_host(name.subrange(0, n)) {
            (name.subrange(0, n), name.subrange(n + 1, name.len() as int))
        } else {
            ("docker.io"@, name)
        },
        None => ("docker.io"@, name),
    }
}

/// A repository path with the default `library/` prefix where it has no `/`.
pub open spec fn full_path(repo: Seq<char>) -> Seq<char> {
    if repo.contains('/') {
        repo
    } else {
        "library/"@ + repo
    }
}

/// The host that network requests go to.
pub open spec fn wire_host(host: Seq<char>) -> Seq<char> {
    if host == "docker.io"@ {
        "registry.hub.docker.com"@
    } else {
        host
    }
}

/// The host as shown to people: the shorter alias where there is one.
pub open spec fn shown_host(host: Seq<char>) -> Seq<char> {
    if host == "registry.hub.docker.com"@ {
        "docker.io"@
    } else {
        host
    }
}

/// The wire host, repository path and selector a reference names.
pub open spec fn reference_parts(s: Seq<char>) -> (Seq<char>, Seq<char>, Seq<char>) {
    let (name, selector) = split_reference(s);
    let (host, repo) = split_host(name);
    (wire_host(host), full_path(repo), selector)
}

/// A bare name lives on the default registry, below `library/`, with the
/// selector `latest`.
pub proof fn lemma_bare_name_defaults(n: Seq<char>)
    requires
        !n.contains('/'),
        !n.contains(':'),
        !n.contains('@'),
    ensures
        reference_parts(n) == (wire_host("docker.io"@), "library/"@ + n, "latest"@),
        shown_host(reference_parts(n).0) == "docker.io"@,
{
    crate::text::lemma_find_none(n, '/');
    crate::text::lemma_find_none(n, ':');
    crate::text::lemma_find_none(n, '@');
}

/// `host/path:tag` names that host and path, with the tag as selector, when
/// the host has a `.` or `:` and the path has a `/`.
pub proof fn lemma_tagged_reference(h: Seq<char>, p: Seq<char>, t: Seq<char>)
    requires
        h.contains('.') || h.contains(':'),
        !h.contains('/'),
        !h.contains('@'),
        p.contains('/'),
        !p.contains(':'),
        !p.contains('@'),
        !t.contains('/'),
        !t.contains(':'),
        !t.contains('@'),
    ensures
        reference_parts(h + "/"@ + p + ":"@ + t) == (wire_host(h), p, t),
        shown_host(wire_host(h)) == shown_host(h),
{
    lemma_slash(h, p);
    let name = h + "/"@ + p;
    let s = name + ":"@ + t;
    lemma_single(':', '/');
    lemma_single(':', ':');
    lemma_single(':', '@');
    lemma_single('/', '@');
    lemma_single('/', ':');
    crate::text::lemma_find_none(t, '/');
    crate::text::lemma_find_none(t, ':');
    crate::text::lemma_find_none(t, '@');
    crate::text::lemma_find_none(p, '/');
    crate::text::lemma_find_none(p, '@');
    crate::text::lemma_find_none(h, '@');
    crate::text::lemma_find_last_concat(name, ":"@, '/');
    crate::text::lemma_find_last_concat(name + ":"@, t, '/');
    crate::text::lemma_find_last_concat(name, ":"@, ':');
    crate::text::lemma_find_last_concat(name + ":"@, t, ':');
    crate::text::lemma_find_last_concat(h + "/"@, p, '@');
    crate::text::lemma_find_last_concat(h, "/"@, '@');
    crate::text::lemma_find_last_concat(name, ":"@, '@');
    crate::text::lemma_find_last_concat(name + ":"@, t, '@');
    assert(s.subrange(0, name.len() as int) == name);
    assert(s.subrange(name.len() as int + 1, s.len() as int) == t);
    assert(find_last(name, '/') matches Some(i) && i > h.len());
    assert(find_last(s, '/') == find_last(name, '/'));
    assert(last_or_zero(s, '/') > h.len());
    assert(find_last(s, '@') is None);
    assert(last_or_zero(s, '@') == 0);
    assert(find_last(s, ':') == Some(name.len() as int));
    crate::text::lemma_find_last_bounds(name, '/');
    assert(split_reference(s) == (name, t));
    assert(split_host(name) == (h, p));
}

/// `host/path@digest` names that host and path, with the digest as selector,
/// when the host has a `.` or `:` and the path has a `/`.
pub proof fn lemma_digest_reference(h: Seq<char>, p: Seq<char>, d: Seq<char>)
    requires
        h.contains('.') || h.contains(':'),
        !h.contains('/'),
        !h.contains('@'),
        p.contains('/'),
        !p.contains(':'),
        !p.contains('@'),
        !d.contains('/'),
        !d.contains('@'),
    ensures
        reference_parts(h + "/"@ + p + "@"@ + d) == (wire_host(h), p, d),
        shown_host(wire_host(h)) == shown_host(h),
{
    lemma_slash(h, p);
    let name = h + "/"@ + p;
    let s = name + "@"@ + d;
    lemma_single('@', '/');
    lemma_single('@', '@');
    lemma_single('@', ':');
    lemma_single('/', '@');
    lemma_single('/', ':');
    crate::text::lemma_find_none(d, '/');
    crate::text::lemma_find_none(d, '@');
    crate::text::lemma_find_none(p, '/');
    crate::text::lemma_find_none(p, ':');
    crate::text::lemma_find_none(p, '@');
    crate::text::lemma_find_none(h, '@');
    crate::text::lemma_find_none(h, ':');
    crate::text::lemma_find_last_bounds(h, ':');
    crate::text::lemma_find_last_concat(name, "@"@, '/');
    crate::text::lemma_find_last_concat(name + "@"@, d, '/');
    crate::text::lemma_find_last_concat(h + "/"@, p, '@');
    crate::text::lemma_find_last_concat(h, "/"@, '@');
    crate::text::lemma_find_last_concat(name, "@"@, '@');
    crate::text::lemma_find_last_concat(name + "@"@, d, '@');
    crate::text::lemma_find_last_concat(h + "/"@, p, ':');
    crate::text::lemma_find_last_concat(h, "/"@, ':');
    assert(s.subrange(0, name.len() as int) == name);
    assert(s.subrange(name.len() as int + 1, s.len() as int) == d);
    crate::text::lemma_find_last_bounds(name, '/');
    crate::text::lemma_find_last_bounds(name, ':');
    assert(find_last(name, '/') matches Some(i) && i > h.len());
    assert(find_last(s, '/') == find_last(name, '/'));
    assert(last_or_zero(s, '/') > h.len());
    assert(find_last(s, '@') == Some(name.len() as int));
    assert(s.subrange(0, name.len() as int) == name);
    assert(last_or_zero(name, ':') < h.len() || last_or_zero(name, ':') == 0);
    assert(split_reference(s) == (name, d));
    assert(split_host(name) == (h, p));
}

proof fn lemma_single(x: char, c: char)
    ensures
        find_last(seq![x], c) == (if x == c { Some(0int) } else { None::<int> }),
{
    let s = seq![x];
    assert(s.len() == 1);
    assert(s.last() == x);
    assert(s.drop_last() == Seq::<char>::empty());
    assert(find_last(s.drop_last(), c) is None);
}

/// In `h/p` with no `/` in `h`, the first `/` ends the host, the last `/` is
/// inside `p`, and every position of `p` lies after the host.
proof fn lemma_slash(h: Seq<char>, p: Seq<char>)
    requires
        !h.contains('/'),
        p.contains('/'),
        h.contains('.') || h.contains(':'),
    ensures
        "/"@ == seq!['/'],
        ":"@ == seq![':'],
        "@"@ == seq!['@'],
        find_first(h + "/"@ + p, '/') == Some(h.len() as int),
        find_last(h + "/"@ + p, '/') matches Some(i) && i > h.len(),
        (h + "/"@ + p).subrange(0, h.len() as int) == h,
        (h + "/"@ + p).subrange(h.len() as int + 1, (h + "/"@ + p).len() as int) == p,
        is_host(h),
{
    reveal_strlit("/");
    reveal_strlit(":");
    reveal_strlit("@");
    assert("/"@ =~= seq!['/']);
    assert(":"@ =~= seq![':']);
    assert("@"@ =~= seq!['@']);
    crate::text::lemma_find_none(h, '/');
    crate::text::lemma_find_none(p, '/');
    crate::text::lemma_find_last_bounds(p, '/');
    assert(find_first(seq!['/'], '/') == Some(0int));
    assert(seq!['/'].drop_last() == Seq::<char>::empty());
    crate::text::lemma_find_first_concat(h, seq!['/'], '/');
    crate::text::lemma_find_first_concat(h + seq!['/'], p, '/');
    crate::text::lemma_find_last_concat(h + seq!['/'], p, '/');
    assert((h + "/"@ + p).subrange(0, h.len() as int) == h);
    assert((h + "/"@ + p).subrange(h.len() as int + 1, (h + "/"@ + p).len() as int) == p);
}

/// A repository in an image registry.
pub struct Repository {
    host: String,
    path: String,
}

impl Repository {
    /// The host that requests go to.
    pub closed spec fn host_view(&self) -> Seq<char> {
        self.host@
    }

    /// The repository path below the host.
    pub closed spec fn path_view(&self) -> Seq<char> {
        self.path@
    }

    /// Parses a reference `[host/]path[:tag|@digest]` into the repository and
    /// the selector.
    pub fn new(reference: &str) -> (r: (Repository, String))
        ensures
            (r.0.host_view(), r.0.path_view(), r.1@) == reference_parts(reference@),
    {
        let s = chars_of(reference);
        let sep = index_or_zero(position_last(s.as_slice(), '/'));
        let dig = index_or_zero(position_last(s.as_slice(), '@'));
        let lbl = index_or_zero(position_last(s.as_slice(), ':'));
        proof {
            crate::text::lemma_find_last_bounds(s@, '/');
            crate::text::lemma_find_last_bounds(s@, '@');
            crate::text::lemma_find_last_bounds(s@, ':');
        }
        let len = s.len();
        assert(dig <= len && lbl <= len);
        let (name, tag): (Vec<char>, Vec<char>) = if dig > sep {
            assert(dig < len);
            let whole = slice_of(s.as_slice(), 0, dig);
            let label = index_or_zero(position_last(whole.as_slice(), ':'));
            proof { crate::text::lemma_find_last_bounds(whole@, ':'); }
            let name = if label > sep {
                slice_of(whole.as_slice(), 0, label)
            } else {
                whole
            };
            (name, slice_of(s.as_slice(), dig + 1, s.len()))
        } else if lbl > sep {
            assert(lbl < len);
            (slice_of(s.as_slice(), 0, lbl), slice_of(s.as_slice(), lbl + 1, s.len()))
        } else {
            (slice_of(s.as_slice(), 0, s.len()), chars_of("latest"))
        };
        proof {
            assert(s@.subrange(0, s@.len() as int) == s@);
        }
        let (host, repo) = host_and_repo(name.as_slice());
        let path = if contains_char(repo.as_slice(), '/') {
            repo
        } else {
            let mut p = chars_of("library/");
            append_chars(&mut p, repo.as_slice());
            p
        };
        let wire = if same_chars(host.as_slice(), chars_of("docker.io").as_slice()) {
            chars_of("registry.hub.docker.com")
        } else {
            host
        };
        (
            Repository { host: string_of(wire.as_slice()), path: string_of(path.as_slice()) },
            string_of(tag.as_slice()),
        )
    }

    /// `host/path`, with the host shown by its shorter alias.
    pub fn display(&self) -> (r: String)
        ensures
            r@ == shown_host(self.host_view()) + "/"@ + self.path_view(),
    {
        let host = chars_of(self.host.as_str());
        let mut out = if same_chars(host.as_slice(), chars_of("registry.hub.docker.com").as_slice()) {
            chars_of("docker.io")
        } else {
            host
        };
        append_chars(&mut out, chars_of("/").as_slice());
        append_chars(&mut out, chars_of(self.path.as_str()).as_slice());
        string_of(out.as_slice())
    }

    /// A repository with the same host and path.
    pub fn copy(&self) -> (r: Repository)
        ensures
            r.host_view() == self.host_view(),
            r.path_view() == self.path_view(),
    {
        Repository { host: self.host.clone(), path: self.path.clone() }
    }

    /// The address of `suffix` below the repository's registry endpoint.
    pub fn url(&self, suffix: &str) -> (r: String)
        ensures
            r@ == "https://"@ + self.host_view() + "/v2/"@ + self.path_view() + "/"@ + suffix@,
    {
        let mut out = chars_of("https://");
        append_chars(&mut out, chars_of(self.host.as_str()).as_slice());
        append_chars(&mut out, chars_of("/v2/").as_slice());
        append_chars(&mut out, chars_of(self.path.as_str()).as_slice());
        append_chars(&mut out, chars_of("/").as_slice());
        append_chars(&mut out, chars_of(suffix).as_slice());
        string_of(out.as_slice())
    }
}

fn index_or_zero(i: Option<usize>) -> (r: usize)
    ensures
        r == match i {
            Some(k) => k,
            None => 0,
        },
{
    match i {
        Some(k) => k,
        None => 0,
    }
}

fn host_and_repo(name: &[char]) -> (r: (Vec<char>, Vec<char>))
    ensures
        r.0@ == split_host(name@).0,
        r.1@ == split_host(name@).1,
{
    match position_first(name, '/') {
        Some(n) => {
            proof {
                crate::text::lemma_find_first_bounds(name@, '/');
                assert(name@.subrange(0, name@.len() as int) == name@);
            }
            let len = name.len();
            assert(n < len);
            let seg = slice_of(name, 0, n);
            if contains_char(seg.as_slice(), '.') || contains_char(seg.as_slice(), ':')
                || same_chars(seg.as_slice(), chars_of("localhost").as_slice()) {
                (seg, slice_of(name, n + 1, name.len()))
            } else {
                (chars_of("docker.io"), slice_of(name, 0, name.len()))
            }
        },
        None => {
            proof { assert(name@.subrange(0, name@.len() as int) == name@); }
            (chars_of("docker.io"), slice_of(name, 0, name.len()))
        },
    }
}

} // verus!

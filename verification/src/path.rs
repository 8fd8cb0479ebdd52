//! Paths stored in the DuckLake catalog, relative to the catalog's data path or absolute
//! (URLs), and the storage locations they resolve to.
use url::Url;
use vstd::prelude::*;

use crate::error::{DucklakeError, DucklakeResult};
use crate::metadata::opt_view;
use crate::text::{concat_str, ends_with_char, str_eq, to_owned_string};

verus! {

/// How a string parses as an absolute URL (`url::Url::parse`).
pub enum UrlParse {
    /// The serialization of the parsed URL.
    Parsed(Seq<char>),
    /// The string is a relative reference (no scheme).
    RelativeWithoutBase,
    /// Any other parse error.
    Invalid,
}

/// What `url::Url::parse` makes of a string.
pub uninterp spec fn url_parse_spec(s: Seq<char>) -> UrlParse;

/// The serialization of `input` resolved against the URL serialized as `base`
/// (`url::Url::join`), if the base parses and the join succeeds.
pub uninterp spec fn url_join_spec(base: Seq<char>, input: Seq<char>) -> Option<Seq<char>>;

/// The path component of the URL serialized as `url` (`url::Url::path`), if it parses.
pub uninterp spec fn url_path_spec(url: Seq<char>) -> Option<Seq<char>>;

/// The serialization of the URL serialized as `url` with its path replaced by `path`
/// (`url::Url::set_path`), if it parses.
pub uninterp spec fn url_set_path_spec(url: Seq<char>, path: Seq<char>) -> Option<Seq<char>>;

/// The scheme of the URL serialized as `url` (`url::Url::scheme`), if it parses.
pub uninterp spec fn url_scheme_spec(url: Seq<char>) -> Option<Seq<char>>;

/// The host of the URL serialized as `url` (`url::Url::host_str`), if it parses.
pub uninterp spec fn url_host_spec(url: Seq<char>) -> Option<Option<Seq<char>>>;

/// Why a string does not parse as an absolute URL.
pub enum UrlFault {
    RelativeWithoutBase,
    Invalid(String),
}

/// Parses an absolute URL (`url::Url::parse`) and returns its serialization; a relative
/// reference and other parse errors are told apart. The contract ties the outcome to the
/// named result of the parse; nothing more is claimed.
#[verifier::external_body]
fn url_parse(s: &str) -> (r: Result<String, UrlFault>)
    ensures
        match r {
            Ok(u) => url_parse_spec(s@) == UrlParse::Parsed(u@),
            Err(UrlFault::RelativeWithoutBase) => url_parse_spec(s@) == UrlParse::RelativeWithoutBase,
            Err(UrlFault::Invalid(_)) => url_parse_spec(s@) == UrlParse::Invalid,
        },
{
    match Url::parse(s) {
        Ok(u) => Ok(u.as_str().to_owned()),
        Err(url::ParseError::RelativeUrlWithoutBase) => Err(UrlFault::RelativeWithoutBase),
        Err(e) => Err(UrlFault::Invalid(e.to_string())),
    }
}

/// Resolves `input` against the URL serialized as `base` (`url::Url::join`). The result is
/// the named result of the join.
#[verifier::external_body]
fn url_join(base: &str, input: &str) -> (r: Option<String>)
    ensures
        match r {
            Some(u) => url_join_spec(base@, input@) == Some(u@),
            None => url_join_spec(base@, input@) is None,
        },
{
    Url::parse(base).and_then(|u| u.join(input)).ok().map(|u| u.as_str().to_owned())
}

/// The path component of the URL serialized as `url` (`url::Url::path`).
#[verifier::external_body]
fn url_path(url: &str) -> (r: Option<String>)
    ensures
        match r {
            Some(p) => url_path_spec(url@) == Some(p@),
            None => url_path_spec(url@) is None,
        },
{
    Url::parse(url).ok().map(|u| u.path().to_owned())
}

/// The URL serialized as `url` with its path replaced (`url::Url::set_path`). `set_path`
/// keeps positions in the serialization as `u32` and panics past that: the serialization (at
/// most four bytes a character) with the new path (at most twelve bytes a character once
/// percent-encoded, and three more for a leading `%2F`) must fit.
#[verifier::external_body]
fn url_set_path(url: &str, path: &str) -> (r: Option<String>)
    requires
        set_path_fits(url@, path@),
    ensures
        match r {
            Some(u) => url_set_path_spec(url@, path@) == Some(u@),
            None => url_set_path_spec(url@, path@) is None,
        },
{
    match Url::parse(url) {
        Ok(mut u) => {
            u.set_path(path);
            Some(u.as_str().to_owned())
        },
        Err(_) => None,
    }
}

/// The scheme of the URL serialized as `url` (`url::Url::scheme`).
#[verifier::external_body]
fn url_scheme(url: &str) -> (r: Option<String>)
    ensures
        match r {
            Some(s) => url_scheme_spec(url@) == Some(s@),
            None => url_scheme_spec(url@) is None,
        },
{
    Url::parse(url).ok().map(|u| u.scheme().to_owned())
}

/// The host of the URL serialized as `url` (`url::Url::host_str`).
#[verifier::external_body]
fn url_host(url: &str) -> (r: Option<Option<String>>)
    ensures
        match r {
            Some(Some(h)) => url_host_spec(url@) == Some(Some(h@)),
            Some(None) => url_host_spec(url@) == Some(None::<Seq<char>>),
            None => url_host_spec(url@) is None,
        },
{
    Url::parse(url).ok().map(|u| u.host_str().map(|h| h.to_owned()))
}

/// The `file:` URL of an absolute file path (`url::Url::from_file_path`), serialized. What
/// counts as absolute depends on the platform, so only the scheme prefix of a result (as the
/// source builds it) is stated.
#[verifier::external_body]
fn url_from_file_path(path: &str) -> (r: Option<String>)
    ensures
        r matches Some(u) ==> u@.len() >= 7 && u@.take(7) == "file://"@,
{
    Url::from_file_path(path).ok().map(|u| u.as_str().to_owned())
}

/// The file path of the `file:` URL serialized as `url` (`url::Url::to_file_path`), as
/// text. Which path comes out, and for which URLs, depends on the platform's path rules; only
/// that a path comes out of nothing but a URL that parses, and is never empty (the source
/// writes at least one segment or drive), is stated.
#[verifier::external_body]
fn url_to_file_path(url: &str) -> (r: Option<String>)
    ensures
        r is Some ==> url_parse_spec(url@) is Parsed,
        r matches Some(p) ==> p@.len() > 0,
{
    Url::parse(url).ok().and_then(|u| u.to_file_path().ok()).map(|p| p.to_string_lossy().to_string())
}

/// Path stored in the DuckLake catalog: relative (to the catalog's data path) or absolute (a
/// URL, held as its serialization).
#[derive(Debug, Clone, PartialEq, Eq, Hash)]
pub enum DucklakePath {
    Absolute(String),
    Relative(String),
}

/// The text of a path.
pub open spec fn path_text(p: DucklakePath) -> Seq<char> {
    match p {
        DucklakePath::Absolute(u) => u@,
        DucklakePath::Relative(s) => s@,
    }
}

pub open spec fn ends_with_slash(s: Seq<char>) -> bool {
    s.len() > 0 && s.last() == '/'
}

/// The path that `other` denotes when taken relative to `base`: an absolute `other` stands
/// for itself; a relative one is resolved against an absolute base as a URL, or appended to
/// a relative base (which must end with `/`).
pub open spec fn join_spec(base: DucklakePath, other: DucklakePath) -> Option<(bool, Seq<char>)> {
    join_parts(base, other is Relative, path_text(other))
}

/// `join_spec` for an `other` given as relative-or-not and its text.
pub open spec fn join_parts(base: DucklakePath, rel: bool, o: Seq<char>) -> Option<(bool, Seq<char>)> {
    if !rel {
        Some((false, o))
    } else {
        match base {
            DucklakePath::Absolute(b) => match url_join_spec(b@, o) {
                Some(u) => Some((false, u)),
                None => None,
            },
            DucklakePath::Relative(b) => if ends_with_slash(b@) {
                Some((true, b@ + o))
            } else {
                None
            },
        }
    }
}

/// Setting the path `path` on the URL serialized as `url` keeps every position within `u32`.
pub open spec fn set_path_fits(url: Seq<char>, path: Seq<char>) -> bool {
    4 * url.len() + 12 * path.len() + 3 <= u32::MAX
}

/// Making the path a directory keeps the URL's positions within `u32`: true of relative paths
/// and of URLs whose path ends with `/` already.
pub open spec fn directory_fits(p: DucklakePath) -> bool {
    match p {
        DucklakePath::Relative(_) => true,
        DucklakePath::Absolute(u) => match url_path_spec(u@) {
            Some(path) => ends_with_slash(path) || set_path_fits(u@, path.push('/')),
            None => true,
        },
    }
}

/// A path is relative (`true`) or absolute, with the given text.
pub open spec fn path_is(p: DucklakePath, rel: bool, text: Seq<char>) -> bool {
    &&& (p is Relative) == rel
    &&& path_text(p) == text
}

/// The directory form of a path: its text (for an absolute path, its URL path) ends with
/// `/`.
pub open spec fn directory_spec(p: DucklakePath) -> Option<(bool, Seq<char>)> {
    match p {
        DucklakePath::Relative(s) => if ends_with_slash(s@) {
            Some((true, s@))
        } else {
            Some((true, s@.push('/')))
        },
        DucklakePath::Absolute(u) => match url_path_spec(u@) {
            Some(path) => if ends_with_slash(path) {
                Some((false, u@))
            } else {
                match url_set_path_spec(u@, path.push('/')) {
                    Some(v) => Some((false, v)),
                    None => None,
                }
            },
            None => None,
        },
    }
}

impl DucklakePath {
    /// A path from its stored text. A relative path is kept as it is; an absolute one must
    /// parse as a URL, or be an absolute file path (taken as a `file:` URL). Fails on any
    /// other text.
    pub fn new(path: &str, is_relative: bool) -> (r: DucklakeResult<DucklakePath>)
        ensures
            is_relative ==> (r matches Ok(p) && path_is(p, true, path@)),
            !is_relative ==> match url_parse_spec(path@) {
                UrlParse::Parsed(u) => r matches Ok(p) && path_is(p, false, u),
                UrlParse::RelativeWithoutBase => match r {
                    Ok(p) => p matches DucklakePath::Absolute(u) && u@.take(7) == "file://"@,
                    Err(e) => e is InvalidPath,
                },
                UrlParse::Invalid => r matches Err(e) && e is InvalidPath,
            },
    {
        if is_relative {
            return Ok(DucklakePath::Relative(to_owned_string(path)));
        }
        match url_parse(path) {
            Ok(u) => Ok(DucklakePath::Absolute(u)),
            Err(UrlFault::RelativeWithoutBase) => match url_from_file_path(path) {
                Some(u) => Ok(DucklakePath::Absolute(u)),
                None => Err(DucklakeError::InvalidPath { path: to_owned_string(path), reason: "invalid absolute path" }),
            },
            Err(UrlFault::Invalid(_)) => Err(DucklakeError::InvalidPath { path: to_owned_string(path), reason: "invalid URL" }),
        }
    }

    /// Parses a path written by a user: an absolute URL, an absolute file path (taken as a
    /// `file:` URL), or else a relative path. Fails when the text is a malformed URL.
    pub fn parse(s: &str) -> (r: DucklakeResult<DucklakePath>)
        ensures
            match url_parse_spec(s@) {
                UrlParse::Parsed(u) => r matches Ok(p) && path_is(p, false, u),
                UrlParse::RelativeWithoutBase => r matches Ok(p) && (path_is(p, true, s@) || (p matches DucklakePath::Absolute(
                    u,
                ) && u@.take(7) == "file://"@)),
                UrlParse::Invalid => r matches Err(e) && e is InvalidPath,
            },
    {
        match url_parse(s) {
            Ok(u) => Ok(DucklakePath::Absolute(u)),
            Err(UrlFault::RelativeWithoutBase) => match url_from_file_path(s) {
                Some(u) => Ok(DucklakePath::Absolute(u)),
                None => Ok(DucklakePath::Relative(to_owned_string(s))),
            },
            Err(UrlFault::Invalid(_)) => Err(DucklakeError::InvalidPath { path: to_owned_string(s), reason: "invalid URL" }),
        }
    }

    /// A copy of this path.
    pub fn duplicate(&self) -> (r: DucklakePath)
        ensures
            r == *self,
    {
        match self {
            DucklakePath::Absolute(u) => DucklakePath::Absolute(u.clone()),
            DucklakePath::Relative(s) => DucklakePath::Relative(s.clone()),
        }
    }

    /// The path that `other` denotes relative to this one (see `join_spec`).
    pub fn join(&self, other: &DucklakePath) -> (r: DucklakePath)
        requires
            join_spec(*self, *other) is Some,
        ensures
            path_is(r, join_spec(*self, *other).unwrap().0, join_spec(*self, *other).unwrap().1),
    {
        match (self, other) {
            (_, DucklakePath::Absolute(u)) => DucklakePath::Absolute(u.clone()),
            (DucklakePath::Absolute(b), DucklakePath::Relative(o)) => {
                let joined = url_join(b.as_str(), o.as_str());
                DucklakePath::Absolute(joined.unwrap())
            },
            (DucklakePath::Relative(b), DucklakePath::Relative(o)) => DucklakePath::Relative(
                concat_str(b.as_str(), o.as_str()),
            ),
        }
    }

    /// The path that `other` denotes relative to this one, or `None` when there is none (a
    /// relative base that does not end with `/`, or a URL join that fails).
    pub fn try_join(&self, other: &DucklakePath) -> (r: Option<DucklakePath>)
        ensures
            match join_spec(*self, *other) {
                Some((rel, text)) => r matches Some(p) && path_is(p, rel, text),
                None => r is None,
            },
    {
        match (self, other) {
            (DucklakePath::Absolute(b), DucklakePath::Relative(o)) => {
                if url_join(b.as_str(), o.as_str()).is_none() {
                    return None;
                }
            },
            (DucklakePath::Relative(b), DucklakePath::Relative(_)) => {
                if !ends_with_char(b.as_str(), '/') {
                    return None;
                }
            },
            _ => {},
        }
        Some(self.join(other))
    }

    /// The path that the relative path `other` denotes relative to this one.
    pub fn join_str(&self, other: &str) -> (r: DucklakePath)
        requires
            join_parts(*self, true, other@) is Some,
        ensures
            path_is(r, join_parts(*self, true, other@).unwrap().0, join_parts(*self, true, other@).unwrap().1),
    {
        let o = DucklakePath::Relative(to_owned_string(other));
        self.join(&o)
    }

    pub fn is_relative(&self) -> (r: bool)
        ensures
            r == self is Relative,
    {
        match self {
            DucklakePath::Relative(_) => true,
            DucklakePath::Absolute(_) => false,
        }
    }

    /// The directory form of this path: `/` appended unless it (for a URL, its path) already
    /// ends with one.
    pub fn ensure_directory(&self) -> (r: DucklakePath)
        requires
            directory_spec(*self) is Some,
            directory_fits(*self),
        ensures
            path_is(r, directory_spec(*self).unwrap().0, directory_spec(*self).unwrap().1),
    {
        match self {
            DucklakePath::Absolute(u) => {
                let path = url_path(u.as_str()).unwrap();
                if !ends_with_char(path.as_str(), '/') {
                    let dir = concat_str(path.as_str(), "/");
                    proof {
                        reveal_strlit("/");
                        assert(dir@ =~= path@.push('/'));
                    }
                    DucklakePath::Absolute(url_set_path(u.as_str(), dir.as_str()).unwrap())
                } else {
                    DucklakePath::Absolute(u.clone())
                }
            },
            DucklakePath::Relative(p) => {
                if !ends_with_char(p.as_str(), '/') {
                    let dir = concat_str(p.as_str(), "/");
                    proof {
                        reveal_strlit("/");
                        assert(dir@ =~= p@.push('/'));
                    }
                    DucklakePath::Relative(dir)
                } else {
                    DucklakePath::Relative(p.clone())
                }
            },
        }
    }

    /// The directory form of this path, or `None` when the URL's path cannot be read or set,
    /// or the URL would grow past what `u32` positions can hold.
    pub fn try_ensure_directory(&self) -> (r: Option<DucklakePath>)
        ensures
            match directory_spec(*self) {
                Some((rel, text)) => if directory_fits(*self) {
                    r matches Some(p) && path_is(p, rel, text)
                } else {
                    r is None
                },
                None => r is None,
            },
    {
        if let DucklakePath::Absolute(u) = self {
            match url_path(u.as_str()) {
                None => return None,
                Some(path) => {
                    if !ends_with_char(path.as_str(), '/') {
                        let dir = concat_str(path.as_str(), "/");
                        proof {
                            reveal_strlit("/");
                            assert(dir@ =~= path@.push('/'));
                        }
                        let url_len = u.as_str().unicode_len() as u128;
                        let dir_len = dir.as_str().unicode_len() as u128;
                        if url_len * 4 + dir_len * 12 + 3 > 0xFFFF_FFFFu128 {
                            return None;
                        }
                        if url_set_path(u.as_str(), dir.as_str()).is_none() {
                            return None;
                        }
                    }
                },
            }
        }
        Some(self.ensure_directory())
    }

    /// The text of this path (for an absolute path, the URL's serialization).
    pub fn as_str(&self) -> (r: &str)
        ensures
            r@ == path_text(*self),
    {
        match self {
            DucklakePath::Absolute(u) => u.as_str(),
            DucklakePath::Relative(p) => p.as_str(),
        }
    }

    /// The text of this path, as displayed.
    pub fn to_text(&self) -> (r: String)
        ensures
            r@ == path_text(*self),
    {
        to_owned_string(self.as_str())
    }

    /// Resolves this path to a storage location; a relative path is taken relative to the
    /// directory `cwd` (the process's working directory): the file path `cwd/path` becomes a
    /// `file:` URL, and that URL's local file path is the result. When `cwd/path` is no
    /// absolute file path, the error names it; when the URL stands for no local path, the
    /// error names the URL.
    pub fn resolve(&self, cwd: &str) -> (r: DucklakeResult<Path>)
        ensures
            self matches DucklakePath::Absolute(u) ==> match url_scheme_spec(u@) {
                Some(s) => resolves_as(r, u@, s),
                None => r matches Err(e) && e is InvalidPath,
            },
            self matches DucklakePath::Relative(rel) ==> match r {
                Ok(p) => p matches Path::Local { path } && path@.len() > 0,
                Err(e) => e matches DucklakeError::InvalidPath { path, .. } && (path@ == cwd@ + "/"@ + rel@ || (
                path@.len() >= 7 && path@.take(7) == "file://"@)),
            },
    {
        match self {
            DucklakePath::Absolute(u) => Path::new(u.as_str()),
            DucklakePath::Relative(p) => {
                let full = concat_str(concat_str(cwd, "/").as_str(), p.as_str());
                match url_from_file_path(full.as_str()) {
                    Some(u) => {
                        proof {
                            reveal_strlit("file");
                        }
                        Path::from_file_path(u.as_str(), url_to_file_path(u.as_str()))
                    },
                    None => Err(DucklakeError::InvalidPath { path: full, reason: "invalid absolute path" }),
                }
            },
        }
    }
}

impl std::str::FromStr for DucklakePath {
    type Err = DucklakeError;

    /// Parses a path as `DucklakePath::parse` does.
    fn from_str(s: &str) -> (r: Result<DucklakePath, DucklakeError>)
        ensures
            match url_parse_spec(s@) {
                UrlParse::Parsed(u) => r matches Ok(p) && path_is(p, false, u),
                UrlParse::RelativeWithoutBase => r matches Ok(p) && (path_is(p, true, s@) || (p matches DucklakePath::Absolute(
                    u,
                ) && u@.take(7) == "file://"@)),
                UrlParse::Invalid => r matches Err(e) && e is InvalidPath,
            },
    {
        DucklakePath::parse(s)
    }
}

impl Default for DucklakePath {
    /// The empty relative path.
    fn default() -> (r: DucklakePath)
        ensures
            path_is(r, true, Seq::empty()),
    {
        DucklakePath::Relative(String::new())
    }
}

/// A storage location: a local file path, an S3 object or an Azure blob.
#[derive(Debug, Clone, PartialEq, Eq)]
pub enum Path {
    Local { path: String },
    S3 { bucket: String, path: String },
    Azure { container: String, path: String },
}

/// What resolving the `file:` URL `u` gives, once the file path it stands for is known: that
/// local path, or (when it stands for none) an `InvalidPath` error naming the URL.
pub open spec fn file_resolution(r: DucklakeResult<Path>, u: Seq<char>, fp: Option<Seq<char>>) -> bool {
    match fp {
        Some(p) => r matches Ok(Path::Local { path }) && path@ == p,
        None => r matches Err(e) && (e matches DucklakeError::InvalidPath { path, .. } && path@ == u),
    }
}

/// What resolving the URL `u` with scheme `s` gives: a local path for `file` (see
/// `file_resolution`), an S3 object
/// (bucket = host, path = URL path) for `s3`, an Azure blob (container = host) for `az` and
/// `abfs`; any other scheme is unsupported.
pub open spec fn resolves_as(r: DucklakeResult<Path>, u: Seq<char>, s: Seq<char>) -> bool {
    if s == "file"@ {
        exists|fp: Option<Seq<char>>| #[trigger] file_resolution(r, u, fp) && (fp matches Some(p) ==> p.len() > 0)
    } else if s == "s3"@ || s == "az"@ || s == "abfs"@ {
        match (url_host_spec(u), url_path_spec(u)) {
            (Some(Some(h)), Some(path)) => r matches Ok(p) && (if s == "s3"@ {
                p matches Path::S3 { bucket, path: pp } && bucket@ == h && pp@ == path
            } else {
                p matches Path::Azure { container, path: pp } && container@ == h && pp@ == path
            }),
            _ => r matches Err(e) && e is InvalidPath,
        }
    } else {
        r matches Err(e) && (e matches DucklakeError::UnsupportedUrlScheme(x) && x@ == s)
    }
}

impl Path {
    /// The storage location of the `file:` URL serialized as `url`, given the local file path
    /// that the URL stands for (`None` when it stands for none).
    pub fn from_file_path(url: &str, file_path: Option<String>) -> (r: DucklakeResult<Path>)
        ensures
            file_resolution(r, url@, opt_view(file_path)),
    {
        match file_path {
            Some(path) => Ok(Path::Local { path }),
            None => Err(DucklakeError::InvalidPath { path: to_owned_string(url), reason: "not a local file path" }),
        }
    }

    /// The storage location of the URL serialized as `url`.
    pub fn new(url: &str) -> (r: DucklakeResult<Path>)
        ensures
            match url_scheme_spec(url@) {
                Some(s) => resolves_as(r, url@, s),
                None => r matches Err(e) && e is InvalidPath,
            },
    {
        proof {
            reveal_strlit("file");
            reveal_strlit("s3");
            reveal_strlit("az");
            reveal_strlit("abfs");
        }
        let scheme = match url_scheme(url) {
            Some(s) => s,
            None => {
                return Err(DucklakeError::InvalidPath { path: to_owned_string(url), reason: "invalid URL" });
            },
        };
        if str_eq(scheme.as_str(), "file") {
            let file_path = url_to_file_path(url);
            let ghost fp = opt_view(file_path);
            let r = Path::from_file_path(url, file_path);
            assert(file_resolution(r, url@, fp));
            r
        } else if str_eq(scheme.as_str(), "s3") || str_eq(scheme.as_str(), "az") || str_eq(scheme.as_str(), "abfs") {
            let host = url_host(url);
            let path = url_path(url);
            match (host, path) {
                (Some(Some(h)), Some(p)) => {
                    if str_eq(scheme.as_str(), "s3") {
                        Ok(Path::S3 { bucket: h, path: p })
                    } else {
                        Ok(Path::Azure { container: h, path: p })
                    }
                },
                _ => Err(DucklakeError::InvalidPath { path: to_owned_string(url), reason: "URL has no host" }),
            }
        } else {
            Err(DucklakeError::UnsupportedUrlScheme(scheme))
        }
    }
}

/// The directory form of a relative path ends with `/` and is its own directory form.
pub proof fn lemma_relative_directory_idempotent(p: DucklakePath, q: DucklakePath)
    requires
        p is Relative,
        path_is(q, true, directory_spec(p).unwrap().1),
    ensures
        directory_spec(p) is Some,
        ends_with_slash(directory_spec(p).unwrap().1),
        directory_spec(q) == directory_spec(p),
{
}

/// A path already in directory form is left as it is: a relative path ending with `/`, or a
/// URL whose path ends with `/`, is its own directory form.
pub proof fn lemma_directory_keeps_directories(p: DucklakePath)
    requires
        match p {
            DucklakePath::Relative(s) => ends_with_slash(s@),
            DucklakePath::Absolute(u) => url_path_spec(u@) matches Some(path) && ends_with_slash(path),
        },
    ensures
        directory_spec(p) == Some((p is Relative, path_text(p))),
{
}

} // verus!

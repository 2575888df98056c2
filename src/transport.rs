//! The local-disk transport: a base URL and the filesystem root it denotes.
use vstd::prelude::*;
use crate::error::Error;
use crate::segment::{
    joined, last_per_key, last_value_per_key, last_sep, opt_view, params_map, unique_keys, pairs_ok, pairs_view, parse_segment, set_pairs,
    join_segment_parameters, set_parameter, split_segment_parameters,
};
use crate::text::{chars_of, push_char, push_str, starts_with, sub_string};

verus! {

/// The serialization of `Url::from_file_path(path)`, when it succeeds.
pub uninterp spec fn file_url_of(path: Seq<char>) -> Option<Seq<char>>;

/// The path `Url::to_file_path` gives for the URL parsed from `url`, when
/// both succeed.
pub uninterp spec fn file_path_of(url: Seq<char>) -> Option<Seq<char>>;

/// The serialization of `Url::parse(s)`, when it succeeds.
pub uninterp spec fn url_parse_of(s: Seq<char>) -> Option<Seq<char>>;

/// The serialization of `base.join(rel)` for the URL parsed from `base`,
/// when both succeed.
pub uninterp spec fn url_join_of(base: Seq<char>, rel: Seq<char>) -> Option<Seq<char>>;

/// The path `path_clean::clean` makes of `path`.
pub uninterp spec fn cleaned(path: Seq<char>) -> Seq<char>;

/// Relies on `url::Url::from_file_path`: fails exactly on a path that is
/// not absolute; a URL it builds begins with `file://`.
#[verifier::external_body]
fn url_from_file_path(path: &str) -> (r: Option<String>)
    ensures
        opt_string_view(&r) == file_url_of(path@),
        r is None <==> (path@.len() == 0 || path@[0] != '/'),
        r matches Some(u) ==> u@.len() >= 7 && u@.take(7) == seq!['f', 'i', 'l', 'e', ':', '/', '/'],
{
    url::Url::from_file_path(path).ok().map(String::from)
}

/// Relies on `url::Url::to_file_path`, applied to the URL parsed from
/// `url`; a path that is not UTF-8 counts as a failure.
#[verifier::external_body]
fn url_to_file_path(url: &str) -> (r: Option<String>)
    ensures
        opt_string_view(&r) == file_path_of(url@),
{
    let u = url::Url::parse(url).ok()?;
    u.to_file_path().ok()?.into_os_string().into_string().ok()
}

/// Relies on `url::Url::parse`: the serialization of the parsed URL.
#[verifier::external_body]
fn url_parse(s: &str) -> (r: Option<String>)
    ensures
        opt_string_view(&r) == url_parse_of(s@),
{
    url::Url::parse(s).ok().map(String::from)
}

/// Relies on `url::Url::join`, applied to the URL parsed from `base`.
#[verifier::external_body]
fn url_join(base: &str, rel: &str) -> (r: Option<String>)
    ensures
        opt_string_view(&r) == url_join_of(base@, rel@),
{
    let u = url::Url::parse(base).ok()?;
    u.join(rel).ok().map(String::from)
}

/// Relies on `path_clean::clean`: lexical removal of `.`, `..` and repeated
/// separators; an empty result is written `.`, and the root of an absolute
/// path is kept.
#[verifier::external_body]
fn clean_path(path: &str) -> (r: String)
    ensures
        r@ == cleaned(path@),
        r@.len() > 0,
        path@.len() > 0 && path@[0] == '/' ==> r@[0] == '/',
{
    path_clean::clean(path).to_string_lossy().into_owned()
}

pub open spec fn opt_string_view(o: &Option<String>) -> Option<Seq<char>> {
    match o {
        Some(s) => Some(s@),
        None => None,
    }
}

/// `rel` joined onto `root` as `Path::join` does: an absolute `rel`
/// replaces `root`, otherwise one `/` separates them.
pub open spec fn joined_path(root: Seq<char>, rel: Seq<char>) -> Seq<char> {
    if rel.len() > 0 && rel[0] == '/' {
        rel
    } else if root.len() == 0 || root.last() == '/' {
        root + rel
    } else {
        root + seq!['/'] + rel
    }
}

/// `base` taken as a directory: with a trailing `/` added unless present.
pub open spec fn dir_form(base: Seq<char>) -> Seq<char> {
    if base.len() > 0 && base.last() == '/' {
        base
    } else {
        base.push('/')
    }
}

/// `q` is the directory `root` or lies under it.
pub open spec fn within(root: Seq<char>, q: Seq<char>) -> bool {
    q == root || (dir_form(root).len() <= q.len() && q.take(dir_form(root).len() as int) == dir_form(
        root,
    ))
}

/// The filesystem path of `rel` under `root`: joined, then cleaned, and only
/// when it stays within the cleaned root.
pub open spec fn resolved(root: Seq<char>, rel: Seq<char>) -> Option<Seq<char>> {
    let q = cleaned(joined_path(root, rel));
    if within(cleaned(root), q) {
        Some(q)
    } else {
        None
    }
}

/// The fragment that leads from `base` to `abs`, when `abs` lies at or under
/// `base`.
pub open spec fn relpath_of(base: Seq<char>, abs: Seq<char>) -> Option<Seq<char>> {
    let d = dir_form(base);
    if abs == base {
        Some(Seq::empty())
    } else if d.len() <= abs.len() && abs.take(d.len() as int) == d {
        Some(abs.skip(d.len() as int))
    } else {
        None
    }
}

/// What a transport denotes: its base URL and the filesystem root.
pub struct TransportView {
    pub base: Seq<char>,
    pub root: Seq<char>,
}

/// A transport rooted at a directory of the local filesystem.
#[derive(Clone)]
pub struct FileSystemTransport {
    base: String,
    path: String,
}

impl View for FileSystemTransport {
    type V = TransportView;

    closed spec fn view(&self) -> TransportView {
        TransportView { base: self.base@, root: self.path@ }
    }
}

/// `rel` joined onto `root` as `Path::join` does.
pub fn join_path(root: &str, rel: &str) -> (r: String)
    ensures
        r@ == joined_path(root@, rel@),
{
    proof {
        reveal_strlit("/");
        assert("/"@ =~= seq!['/']);
    }
    let absolute = starts_with(rel, "/");
    assert(rel@.len() > 0 ==> rel@.take(1) =~= seq![rel@[0]]);
    if absolute {
        assert(rel@.take(1) =~= seq!['/']);
        assert(rel@[0] == rel@.take(1)[0]);
        let mut r = String::new();
        push_str(&mut r, rel);
        assert(r@ =~= rel@);
        return r;
    }
    let cs = chars_of(root);
    let n = cs.len();
    let mut r = String::new();
    push_str(&mut r, root);
    if n > 0 && cs[n - 1] != '/' {
        push_char(&mut r, '/');
    }
    push_str(&mut r, rel);
    assert(root@.len() > 0 ==> root@.last() == root@[root@.len() - 1]);
    assert(r@ =~= joined_path(root@, rel@));
    r
}

/// `s` taken as a directory: with a trailing `/` added unless present.
pub fn dir_text(s: &str) -> (r: String)
    ensures
        r@ == dir_form(s@),
{
    let cs = chars_of(s);
    let mut d = String::new();
    push_str(&mut d, s);
    if !(cs.len() > 0 && cs[cs.len() - 1] == '/') {
        push_char(&mut d, '/');
    }
    assert(s@.len() > 0 ==> s@.last() == s@[s@.len() - 1]);
    assert(d@ =~= dir_form(s@));
    d
}

impl FileSystemTransport {
    /// A transport rooted at the absolute filesystem path `path`; fails with
    /// `MalformedLocator` when no `file:` URL can be made of it.
    pub fn from_path(path: &str) -> (r: Result<Self, Error>)
        ensures
            match file_url_of(path@) {
                Some(u) => r matches Ok(t) && t@.base == u && t@.root == path@,
                None => r == Err::<Self, Error>(Error::MalformedLocator),
            },
    {
        match url_from_file_path(path) {
            Some(base) => Ok(FileSystemTransport { base, path: path.to_owned() }),
            None => Err(Error::MalformedLocator),
        }
    }

    /// A transport rooted where the `file:` URL `url` points; fails with
    /// `MalformedLocator` when `url` does not parse, is not a `file:` URL, or
    /// names no local path.
    pub fn from_url(url: &str) -> (r: Result<Self, Error>)
        ensures
            match url_parse_of(url@) {
                Some(u) => if u.len() >= 5 && u.take(5) == seq!['f', 'i', 'l', 'e', ':'] {
                    match file_path_of(u) {
                        Some(p) => r matches Ok(t) && t@.base == u && t@.root == p,
                        None => r == Err::<Self, Error>(Error::MalformedLocator),
                    }
                } else {
                    r == Err::<Self, Error>(Error::MalformedLocator)
                },
                None => r == Err::<Self, Error>(Error::MalformedLocator),
            },
    {
        let base = match url_parse(url) {
            Some(b) => b,
            None => return Err(Error::MalformedLocator),
        };
        proof {
            reveal_strlit("file:");
            assert("file:"@ =~= seq!['f', 'i', 'l', 'e', ':']);
        }
        let is_file = starts_with(base.as_str(), "file:");
        if !is_file {
            return Err(Error::MalformedLocator);
        }
        match url_to_file_path(base.as_str()) {
            Some(path) => Ok(FileSystemTransport { base, path }),
            None => Err(Error::MalformedLocator),
        }
    }

    /// The public locator of this transport: its base URL.
    pub fn external_url(&self) -> (r: String)
        ensures
            r@ == self@.base,
    {
        self.base.clone()
    }

    /// The base URL.
    pub fn base(&self) -> (r: String)
        ensures
            r@ == self@.base,
    {
        self.base.clone()
    }

    /// The filesystem root.
    pub fn root(&self) -> (r: String)
        ensures
            r@ == self@.root,
    {
        self.path.clone()
    }

    /// The filesystem path of `relpath`: joined onto the root, then cleaned
    /// of `.` and `..` segments. Fails with `MalformedLocator` when that path
    /// leaves the (cleaned) root, through `..` or an absolute fragment.
    pub fn local_abspath(&self, relpath: &str) -> (r: Result<String, Error>)
        ensures
            match resolved(self@.root, relpath@) {
                Some(q) => r matches Ok(s) && s@ == q,
                None => r == Err::<String, Error>(Error::MalformedLocator),
            },
    {
        let joined = join_path(self.path.as_str(), relpath);
        let q = clean_path(joined.as_str());
        let root = clean_path(self.path.as_str());
        if q == root {
            return Ok(q);
        }
        let d = dir_text(root.as_str());
        if starts_with(q.as_str(), d.as_str()) {
            Ok(q)
        } else {
            Err(Error::MalformedLocator)
        }
    }

    /// A transport rooted at `offset` under this one, or an equal copy when
    /// `offset` is absent. Touches no file.
    pub fn clone_at(&self, offset: Option<&str>) -> (r: Result<Self, Error>)
        ensures
            match offset {
                None => r matches Ok(t) && t@ == self@,
                Some(o) => match resolved(self@.root, o@) {
                    Some(p) => match file_url_of(p) {
                        Some(u) => r matches Ok(t) && t@.base == u && t@.root == p,
                        None => r == Err::<Self, Error>(Error::MalformedLocator),
                    },
                    None => r == Err::<Self, Error>(Error::MalformedLocator),
                },
            },
    {
        match offset {
            None => Ok(FileSystemTransport { base: self.base.clone(), path: self.path.clone() }),
            Some(o) => match self.local_abspath(o) {
                Ok(p) => FileSystemTransport::from_path(p.as_str()),
                Err(e) => Err(e),
            },
        }
    }

    /// The absolute URL of `relpath`, joined onto the base URL taken as a
    /// directory (with a trailing `/`).
    pub fn abspath(&self, relpath: &str) -> (r: Result<String, Error>)
        ensures
            match url_join_of(dir_form(self@.base), relpath@) {
                Some(u) => r matches Ok(s) && s@ == u,
                None => r == Err::<String, Error>(Error::MalformedLocator),
            },
    {
        let d = dir_text(self.base.as_str());
        match url_join(d.as_str(), relpath) {
            Some(u) => Ok(u),
            None => Err(Error::MalformedLocator),
        }
    }

    /// The fragment that leads from the base URL to `abspath`; fails with
    /// `MalformedLocator` when `abspath` does not lie under the base.
    pub fn relpath(&self, abspath: &str) -> (r: Result<String, Error>)
        ensures
            match relpath_of(self@.base, abspath@) {
                Some(f) => r matches Ok(s) && s@ == f,
                None => r == Err::<String, Error>(Error::MalformedLocator),
            },
    {
        let b = self.base.as_str();
        let cs = chars_of(abspath);
        let bc = chars_of(b);
        assert(abspath@ == b@ ==> abspath@.take(b@.len() as int) =~= b@);
        if starts_with(abspath, b) && cs.len() == bc.len() {
            assert(abspath@.take(b@.len() as int) =~= abspath@);
            return Ok(String::new());
        }
        let d = dir_text(self.base.as_str());
        if !starts_with(abspath, d.as_str()) {
            return Err(Error::MalformedLocator);
        }
        let dc = chars_of(d.as_str());
        let rest = sub_string(&cs, dc.len(), cs.len());
        assert(rest@ =~= abspath@.skip(d@.len() as int));
        Ok(rest)
    }

    /// The segment parameters of the base URL, one per key (the last value
    /// written for it), in the order of their last occurrence; fails
    /// with `MalformedLocator` when one has no `=`.
    pub fn get_segment_parameters(&self) -> (r: Result<Vec<(String, String)>, Error>)
        ensures
            match parse_segment(self@.base) {
                Some((_, ps)) => r matches Ok(v) && pairs_view(v@) == last_per_key(ps)
                    && unique_keys(pairs_view(v@)) && params_map(pairs_view(v@)) == params_map(ps),
                None => r == Err::<Vec<(String, String)>, Error>(Error::MalformedLocator),
            },
    {
        match split_segment_parameters(self.base.as_str()) {
            Ok((_, ps)) => Ok(last_value_per_key(&ps)),
            Err(e) => Err(e),
        }
    }

    /// Rewrites the base URL with `key` set to `value`, or removed when
    /// `value` is absent; the filesystem root is left as it was. Fails with
    /// `MalformedLocator`, changing nothing, when the base's parameters do not
    /// parse, when the new ones cannot be written into a segment, or when the
    /// rewritten URL does not parse.
    pub fn set_segment_parameter(&mut self, key: &str, value: Option<&str>) -> (r: Result<(), Error>)
        ensures
            final(self)@.root == old(self)@.root,
            match parse_segment(old(self)@.base) {
                Some((raw, ps)) => {
                    let next = set_pairs(ps, key@, opt_view(value));
                    if pairs_ok(next) {
                        match url_parse_of(joined(raw, next)) {
                            Some(u) => r is Ok && final(self)@.base == u,
                            None => r == Err::<(), Error>(Error::MalformedLocator)
                                && final(self)@ == old(self)@,
                        }
                    } else {
                        r == Err::<(), Error>(Error::MalformedLocator) && final(self)@ == old(self)@
                    }
                },
                None => r == Err::<(), Error>(Error::MalformedLocator) && final(self)@ == old(self)@,
            },
    {
        let (raw, mut ps) = match split_segment_parameters(self.base.as_str()) {
            Ok(parts) => parts,
            Err(e) => return Err(e),
        };
        set_parameter(&mut ps, key, value);
        let text = match join_segment_parameters(raw.as_str(), ps.as_slice()) {
            Ok(t) => t,
            Err(e) => return Err(e),
        };
        match url_parse(text.as_str()) {
            Some(u) => {
                self.base = u;
                Ok(())
            },
            None => Err(Error::MalformedLocator),
        }
    }
}

} // verus!

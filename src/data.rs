//! Plain value types shared by the catalog, the scanner and the snapshot.

use vstd::prelude::*;

verus! {

/// Whether `s` names a path below a root: not absolute (no leading `/`).
pub open spec fn is_relative_text(s: Seq<char>) -> bool {
    s.len() == 0 || s[0] != '/'
}

/// Whether the first component of `s` is `..`, which would leave the root.
pub open spec fn escapes_root(s: Seq<char>) -> bool {
    s.len() >= 2 && s[0] == '.' && s[1] == '.' && (s.len() == 2 || s[2] == '/')
}

/// What a valid root-relative path looks like.
pub open spec fn valid_relative(s: Seq<char>) -> bool {
    is_relative_text(s) && !escapes_root(s)
}

/// A UTF-8 file path relative to the watched root.
#[derive(Debug)]
pub struct RelativePath {
    path: String,
}

#[derive(Debug, PartialEq, Eq, Structural, Clone, Copy)]
pub enum RelativePathError {
    /// The path is absolute.
    NotRelative,
    /// The path's bytes are not UTF-8.
    InvalidUTF8,
    /// The path's first component is `..`.
    EscapesRoot,
}

/// Relies on `String::from_utf8`: it succeeds exactly on valid UTF-8, and then
/// holds the characters that the bytes encode.
#[verifier::external_body]
fn utf8_string(bytes: Vec<u8>) -> (r: Option<String>)
    ensures
        r.is_some() <==> vstd::utf8::valid_utf8(bytes@),
        r matches Some(s) ==> s@ == vstd::utf8::decode_utf8(bytes@),
{
    String::from_utf8(bytes).ok()
}

impl View for RelativePath {
    type V = Seq<char>;

    closed spec fn view(&self) -> Seq<char> {
        self.path@
    }
}

impl RelativePath {
    pub open spec fn wf(&self) -> bool {
        valid_relative(self@)
    }

    /// Checks that `s` is a root-relative path.
    pub fn try_from(s: String) -> (r: Result<RelativePath, RelativePathError>)
        ensures
            !is_relative_text(s@) ==> r == Err::<RelativePath, _>(RelativePathError::NotRelative),
            is_relative_text(s@) && escapes_root(s@) ==> r == Err::<RelativePath, _>(
                RelativePathError::EscapesRoot,
            ),
            valid_relative(s@) ==> (r matches Ok(p) && p@ == s@ && p.wf()),
    {
        let n = s.as_str().unicode_len();
        if n > 0 && s.as_str().get_char(0) == '/' {
            return Err(RelativePathError::NotRelative);
        }
        if n >= 2 && s.as_str().get_char(0) == '.' && s.as_str().get_char(1) == '.' && (n == 2
            || s.as_str().get_char(2) == '/') {
            return Err(RelativePathError::EscapesRoot);
        }
        Ok(RelativePath { path: s })
    }

    /// Checks that the raw bytes of a path make a root-relative UTF-8 path.
    /// An absolute path is refused before its encoding is looked at.
    pub fn try_from_bytes(bytes: Vec<u8>) -> (r: Result<RelativePath, RelativePathError>)
        ensures
            bytes@.len() > 0 && bytes@[0] == 0x2fu8 ==> r == Err::<RelativePath, _>(
                RelativePathError::NotRelative,
            ),
            !(bytes@.len() > 0 && bytes@[0] == 0x2fu8) && !vstd::utf8::valid_utf8(bytes@) ==> r
                == Err::<RelativePath, _>(RelativePathError::InvalidUTF8),
            !(bytes@.len() > 0 && bytes@[0] == 0x2fu8) && vstd::utf8::valid_utf8(bytes@) ==> {
                let s = vstd::utf8::decode_utf8(bytes@);
                &&& !is_relative_text(s) ==> r == Err::<RelativePath, _>(
                    RelativePathError::NotRelative,
                )
                &&& is_relative_text(s) && escapes_root(s) ==> r == Err::<RelativePath, _>(
                    RelativePathError::EscapesRoot,
                )
                &&& valid_relative(s) ==> (r matches Ok(p) && p@ == s && p.wf())
            },
    {
        if bytes.len() > 0 && bytes[0] == 0x2fu8 {
            return Err(RelativePathError::NotRelative);
        }
        match utf8_string(bytes) {
            None => Err(RelativePathError::InvalidUTF8),
            Some(s) => {
                RelativePath::try_from(s)
            },
        }
    }

    pub fn as_str(&self) -> (r: &str)
        ensures
            r@ == self@,
    {
        self.path.as_str()
    }

    pub fn as_string(&self) -> (r: &String)
        ensures
            r@ == self@,
    {
        &self.path
    }

    pub fn copy(&self) -> (r: RelativePath)
        ensures
            r@ == self@,
    {
        RelativePath { path: self.path.clone() }
    }

    pub fn eq(&self, other: &RelativePath) -> (r: bool)
        ensures
            r == (self@ == other@),
    {
        self.path == other.path
    }
}

/// Seconds since the Unix epoch.
#[derive(Debug, PartialEq, Eq, Structural, Clone, Copy)]
pub struct UnixTimestamp(pub i64);

impl UnixTimestamp {
    pub fn from(secs: i64) -> (r: UnixTimestamp)
        ensures
            r.0 == secs,
    {
        UnixTimestamp(secs)
    }
}

/// The timestamp pair that change detection compares: the modification
/// time and, where the file system records one, the birth time.
#[derive(Debug, PartialEq, Eq, Structural, Clone, Copy)]
pub struct Time {
    pub mtime: UnixTimestamp,
    pub btime: Option<UnixTimestamp>,
}

impl Time {
    /// Two pairs are equal when both fields match; an absent birth time only
    /// equals another absent one.
    pub fn same(&self, other: &Time) -> (r: bool)
        ensures
            r == (*self == *other),
    {
        self.mtime.0 == other.mtime.0 && match (self.btime, other.btime) {
            (Some(a), Some(b)) => a.0 == b.0,
            (None, None) => true,
            _ => false,
        }
    }
}

/// Identifies a watched root in the catalog.
#[derive(Debug, PartialEq, Eq, Structural, Clone, Copy)]
pub struct RootId(pub i64);

/// Identifies a catalog row.
#[derive(Debug, PartialEq, Eq, Structural, Clone, Copy)]
pub struct PathId(pub i64);

/// One file seen under a root.
#[derive(Debug)]
pub struct PathData {
    pub root_id: RootId,
    pub path: RelativePath,
    pub time: Time,
}

impl PathData {
    pub open spec fn wf(&self) -> bool {
        self.path.wf()
    }

    pub fn copy(&self) -> (r: PathData)
        ensures
            r.root_id == self.root_id,
            r.path@ == self.path@,
            r.time == self.time,
    {
        PathData { root_id: self.root_id, path: self.path.copy(), time: self.time }
    }
}

/// The text of `base` joined with the relative path `rel`: a separator goes
/// between them unless `base` is empty or already ends in one.
pub open spec fn joined(base: Seq<char>, rel: Seq<char>) -> Seq<char> {
    if base.len() == 0 || base.last() == '/' {
        base + rel
    } else {
        base + seq!['/'] + rel
    }
}

/// Joins a directory and a relative path as `Path::join` does for a
/// relative second part.
pub fn join_path(base: &str, rel: &str) -> (r: String)
    ensures
        r@ == joined(base@, rel@),
{
    let n = base.unicode_len();
    let mut out = String::from_str(base);
    if n > 0 && base.get_char(n - 1) != '/' {
        out.append("/");
        proof {
            reveal_strlit("/");
        }
    }
    out.append(rel);
    proof {
        if n > 0 {
            assert(base@.last() == base@[n - 1]);
        }
    }
    out
}

/// A watched root: its directory and its catalog id.
#[derive(Debug)]
pub struct RootData {
    pub path: String,
    pub id: RootId,
}

impl RootData {
    pub fn id(&self) -> (r: RootId)
        ensures
            r == self.id,
    {
        self.id
    }

    /// The absolute path of a file under this root.
    pub fn root(&self, rel: &RelativePath) -> (r: String)
        ensures
            r@ == joined(self.path@, rel@),
    {
        join_path(self.path.as_str(), rel.as_str())
    }

    pub fn copy(&self) -> (r: RootData)
        ensures
            r.path@ == self.path@,
            r.id == self.id,
    {
        RootData { path: self.path.clone(), id: self.id }
    }
}

} // verus!

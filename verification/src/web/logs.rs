//! Serving the log files of connections out of a directory.

use vstd::prelude::*;
use vstd::string::*;

verus! {

/// A kind of log.
#[derive(Clone, Copy, PartialEq, Eq, Structural, Debug)]
pub enum LogKind {
    Qlog,
    Mlog,
}

/// The status of HTTP for a request for which nothing was found.
pub const NOT_FOUND: u16 = 404;

/// The status of HTTP for a request that is forbidden.
pub const FORBIDDEN: u16 = 403;

/// The status of HTTP for a request on which the server failed.
pub const INTERNAL_SERVER_ERROR: u16 = 500;

/// The answer to a request that is refused.
pub struct Refusal {
    pub status: u16,
    pub body: String,
}

/// `str::strip_suffix` takes a suffix off a text that ends with it, and gives nothing for a
/// text that does not.
#[verifier::external_body]
fn strip_suffix<'a>(text: &'a str, suffix: &str) -> (rest: Option<&'a str>)
    ensures
        match rest {
            Some(before) => text@ == before@ + suffix@,
            None => !suffix@.is_suffix_of(text@),
        },
{
    text.strip_suffix(suffix)
}

impl LogKind {
    /// What the names of log files end with.
    pub open spec fn suffix_text(self) -> Seq<char> {
        match self {
            LogKind::Qlog => "_server.qlog"@,
            LogKind::Mlog => "_server.mlog"@,
        }
    }

    /// The name of the log file of the connection `cid`. A request may also name the file
    /// itself.
    pub open spec fn filename_text(self, cid: Seq<char>) -> Seq<char> {
        if self.suffix_text().is_suffix_of(cid) {
            cid
        } else {
            cid + self.suffix_text()
        }
    }

    /// What the names of log files end with.
    pub fn suffix(&self) -> (suffix: &'static str)
        ensures
            suffix@ == self.suffix_text(),
    {
        match self {
            LogKind::Qlog => "_server.qlog",
            LogKind::Mlog => "_server.mlog",
        }
    }

    /// The name of the log file of the connection `cid`.
    pub fn filename(&self, cid: &str) -> (filename: String)
        ensures
            filename@ == self.filename_text(cid@),
            self is Qlog ==> filename@ == (if "_server.qlog"@.is_suffix_of(cid@) {
                cid@
            } else {
                cid@ + "_server.qlog"@
            }),
            self is Mlog ==> filename@ == (if "_server.mlog"@.is_suffix_of(cid@) {
                cid@
            } else {
                cid@ + "_server.mlog"@
            }),
    {
        let suffix: &'static str = self.suffix();
        let base_cid: &str = match strip_suffix(cid, suffix) {
            Some(base) => base,
            None => cid,
        };
        proof {
            if suffix@.is_suffix_of(cid@) {
                assert(cid@ == base_cid@ + suffix@);
            }
        }
        base_cid.to_owned().concat(suffix)
    }

    /// The name of this kind at the start of a sentence.
    pub open spec fn title_text(self) -> Seq<char> {
        match self {
            LogKind::Qlog => "Qlog"@,
            LogKind::Mlog => "Mlog"@,
        }
    }

    /// The name of this kind.
    pub open spec fn name_text(self) -> Seq<char> {
        match self {
            LogKind::Qlog => "qlog"@,
            LogKind::Mlog => "mlog"@,
        }
    }

    fn title(&self) -> (title: &'static str)
        ensures
            title@ == self.title_text(),
    {
        match self {
            LogKind::Qlog => "Qlog",
            LogKind::Mlog => "Mlog",
        }
    }

    fn name(&self) -> (name: &'static str)
        ensures
            name@ == self.name_text(),
    {
        match self {
            LogKind::Qlog => "qlog",
            LogKind::Mlog => "mlog",
        }
    }
}

/// A request for a log file: its directory is to be made canonical next.
pub struct LogRequest {
    pub kind: LogKind,
    pub filename: String,
}

/// A request whose directory is known: its file is to be made canonical next.
pub struct LogDir {
    pub kind: LogKind,
    pub filename: String,
    /// The components of the canonical path of the directory.
    pub dir: Vec<Vec<u8>>,
}

/// A request whose file lies in its directory: the file is to be read next.
pub struct LogFile {
    pub kind: LogKind,
    /// The components of the canonical path of the file.
    pub file: Vec<Vec<u8>>,
}

/// The contents of a list of path components.
pub open spec fn components(path: Seq<Vec<u8>>) -> Seq<Seq<u8>> {
    path.map_values(|component: Vec<u8>| component@)
}

/// Whether the path `path` starts with the path `base`, component by component.
pub fn path_starts_with(path: &Vec<Vec<u8>>, base: &Vec<Vec<u8>>) -> (starts: bool)
    ensures
        starts == components(base@).is_prefix_of(components(path@)),
        starts <==> base@.len() <= path@.len() && (forall|i: int|
            0 <= i < base@.len() ==> #[trigger] base@[i]@ == path@[i]@),
{
    proof {
        law_paths_start_component_by_component(path@, base@);
    }
    if base.len() > path.len() {
        return false;
    }
    for i in 0..base.len()
        invariant
            base@.len() <= path@.len(),
            forall|j: int| 0 <= j < i ==> #[trigger] base@[j]@ == path@[j]@,
    {
        if !same_bytes(&base[i], &path[i]) {
            assert(components(base@)[i as int] != components(path@)[i as int]);
            return false;
        }
    }
    assert(components(base@) == components(path@).take(base@.len() as int));
    true
}

fn same_bytes(a: &Vec<u8>, b: &Vec<u8>) -> (same: bool)
    ensures
        same == (a@ == b@),
{
    if a.len() != b.len() {
        return false;
    }
    for i in 0..a.len()
        invariant
            a@.len() == b@.len(),
            forall|j: int| 0 <= j < i ==> a@[j] == b@[j],
    {
        if a[i] != b[i] {
            return false;
        }
    }
    assert(a@ == b@);
    true
}

impl LogRequest {
    /// Takes up a request for the log of the connection `cid`. `enabled` tells whether there
    /// is a directory for logs of this kind.
    pub fn start(kind: LogKind, enabled: bool, cid: &str) -> (request: Result<Self, Refusal>)
        ensures
            match request {
                Ok(r) => enabled && r.kind == kind && r.filename@ == kind.filename_text(cid@),
                Err(refusal) => {
                    &&& !enabled
                    &&& refusal.status == 404
                    &&& refusal.body@ == kind.title_text() + " serving not enabled"@
                },
            },
            request is Ok && kind is Qlog ==> request->Ok_0.filename@ == (
            if "_server.qlog"@.is_suffix_of(cid@) {
                cid@
            } else {
                cid@ + "_server.qlog"@
            }),
            request is Ok && kind is Mlog ==> request->Ok_0.filename@ == (
            if "_server.mlog"@.is_suffix_of(cid@) {
                cid@
            } else {
                cid@ + "_server.mlog"@
            }),
    {
        if !enabled {
            let body: String = kind.title().to_owned().concat(" serving not enabled");
            return Err(Refusal { status: NOT_FOUND, body });
        }
        Ok(Self { kind, filename: kind.filename(cid) })
    }

    /// Goes on with the canonical path of the directory, or with why there is none.
    pub fn with_dir(self, canonical: Result<Vec<Vec<u8>>, String>) -> (dir: Result<LogDir, Refusal>)
        ensures
            match canonical {
                Ok(path) => {
                    &&& dir matches Ok(d)
                    &&& d.kind == self.kind
                    &&& d.filename == self.filename
                    &&& d.dir == path
                },
                Err(cause) => {
                    &&& dir matches Err(refusal)
                    &&& refusal.status == 500
                    &&& refusal.body@ == "Invalid "@ + self.kind.name_text() + " directory: "@
                        + cause@
                },
            },
    {
        match canonical {
            Ok(path) => Ok(LogDir { kind: self.kind, filename: self.filename, dir: path }),
            Err(cause) => {
                let body: String = "Invalid ".to_owned().concat(self.kind.name()).concat(
                    " directory: ",
                ).concat(cause.as_str());
                Err(Refusal { status: INTERNAL_SERVER_ERROR, body })
            },
        }
    }
}

impl LogDir {
    /// Goes on with the canonical path of the file, or with nothing where there is none. A
    /// file that does not lie in the directory is refused.
    pub fn with_file(self, canonical: Option<Vec<Vec<u8>>>) -> (file: Result<LogFile, Refusal>)
        ensures
            match canonical {
                Some(path) => if components(self.dir@).is_prefix_of(components(path@)) {
                    file matches Ok(f) && f.kind == self.kind && f.file == path
                } else {
                    &&& file matches Err(refusal)
                    &&& refusal.status == 403
                    &&& refusal.body@ == "Invalid path"@
                },
                None => {
                    &&& file matches Err(refusal)
                    &&& refusal.status == 404
                    &&& refusal.body@ == self.kind.title_text() + " file not found: "@
                        + self.filename@
                },
            },
            file matches Ok(f) ==> components(self.dir@).is_prefix_of(components(f.file@)),
            file is Ok <==> {
                &&& canonical is Some
                &&& self.dir@.len() <= canonical->0@.len()
                &&& forall|i: int|
                    0 <= i < self.dir@.len() ==> #[trigger] self.dir@[i]@ == canonical->0@[i]@
            },
            file matches Ok(f) ==> canonical == Some(f.file),
    {
        match canonical {
            Some(path) => {
                if !path_starts_with(&path, &self.dir) {
                    return Err(Refusal { status: FORBIDDEN, body: "Invalid path".to_owned() });
                }
                Ok(LogFile { kind: self.kind, file: path })
            },
            None => {
                let body: String = self.kind.title().to_owned().concat(
                    " file not found: ",
                ).concat(self.filename.as_str());
                Err(Refusal { status: NOT_FOUND, body })
            },
        }
    }
}

impl LogFile {
    /// The answer: the content of the file, or a refusal where it could not be read.
    pub fn with_content(self, read: Result<Vec<u8>, String>) -> (answer: Result<Vec<u8>, Refusal>)
        ensures
            match read {
                Ok(content) => answer == Ok::<Vec<u8>, Refusal>(content),
                Err(cause) => {
                    &&& answer matches Err(refusal)
                    &&& refusal.status == 404
                    &&& refusal.body@ == "Failed to read "@ + self.kind.name_text() + " file: "@
                        + cause@
                },
            },
    {
        match read {
            Ok(content) => Ok(content),
            Err(cause) => {
                let body: String = "Failed to read ".to_owned().concat(self.kind.name()).concat(
                    " file: ",
                ).concat(cause.as_str());
                Err(Refusal { status: NOT_FOUND, body })
            },
        }
    }
}

/// A log file is named the same whether a request names the connection or the file, and its
/// name ends as those of its kind do.
pub proof fn law_filename_is_stable(kind: LogKind, cid: Seq<char>)
    ensures
        kind.suffix_text().is_suffix_of(kind.filename_text(cid)),
        kind.filename_text(kind.filename_text(cid)) == kind.filename_text(cid),
        !kind.suffix_text().is_suffix_of(cid) ==> kind.filename_text(cid + kind.suffix_text())
            == kind.filename_text(cid),
{
    let suffix = kind.suffix_text();
    assert(suffix.is_suffix_of(cid + suffix));
}

/// The log file of a connection is named after the connection, with the ending of its kind. A
/// request that has the ending already names the file itself.
pub proof fn law_filename_has_one_ending(cid: Seq<char>)
    ensures
        LogKind::Qlog.filename_text(cid) == (if "_server.qlog"@.is_suffix_of(cid) {
            cid
        } else {
            cid + "_server.qlog"@
        }),
        LogKind::Mlog.filename_text(cid) == (if "_server.mlog"@.is_suffix_of(cid) {
            cid
        } else {
            cid + "_server.mlog"@
        }),
{
}

/// One path starts with another exactly where every component of the other is the same component,
/// byte for byte, of the one.
pub proof fn law_paths_start_component_by_component(path: Seq<Vec<u8>>, base: Seq<Vec<u8>>)
    ensures
        components(base).is_prefix_of(components(path)) <==> base.len() <= path.len() && (forall|
            i: int,
        |
            0 <= i < base.len() ==> #[trigger] base[i]@ == path[i]@),
{
    if base.len() <= path.len() && (forall|i: int|
        0 <= i < base.len() ==> #[trigger] base[i]@ == path[i]@) {
        assert(components(base) == components(path).take(base.len() as int));
    }
    if components(base).is_prefix_of(components(path)) {
        assert forall|i: int| 0 <= i < base.len() implies #[trigger] base[i]@ == path[i]@ by {
            assert(components(base)[i] == components(path)[i]);
        }
    }
}

/// A refused request is told why, with the kind of log that it asked for, and the name of the
/// file or the cause.
pub proof fn law_refusals_name_the_kind(kind: LogKind)
    ensures
        kind is Qlog ==> kind.title_text() == "Qlog"@ && kind.name_text() == "qlog"@
            && kind.suffix_text() == "_server.qlog"@,
        kind is Mlog ==> kind.title_text() == "Mlog"@ && kind.name_text() == "mlog"@
            && kind.suffix_text() == "_server.mlog"@,
{
}

} // verus!

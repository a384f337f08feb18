//! Error values for mount-table parsing: per-field line errors and the
//! stream-level parse error that carries a rendered description.

use vstd::prelude::*;
use vstd::string::*;

use crate::strutil::{dec_str, usize_to_string};

verus! {

/// A structural error for one mount-table line: one variant per required
/// field, split into "the field is absent" and "the field is present but
/// malformed", the latter keeping the offending raw text.
#[derive(Clone, Debug, PartialEq, Eq)]
pub enum LineError {
    MissingSpec,
    MissingFile,
    InvalidFilePath(String),
    InvalidFile(String),
    MissingVfstype,
    MissingMntops,
    MissingFreq,
    InvalidFreq(String),
    MissingPassno,
    InvalidPassno(String),
    MissingId,
    InvalidId(String),
    MissingParentId,
    InvalidParentId(String),
    MissingMajMin,
    InvalidMajMin(String),
    MissingRoot,
    InvalidRoot(String),
    MissingOptional,
    InvalidOptional(String),
    MissingSuperOptions,
    InvalidSuperOptions(String),
}

/// Mathematical model of a `LineError`: offending text as a character
/// sequence.
pub enum LineErrorView {
    MissingSpec,
    MissingFile,
    InvalidFilePath(Seq<char>),
    InvalidFile(Seq<char>),
    MissingVfstype,
    MissingMntops,
    MissingFreq,
    InvalidFreq(Seq<char>),
    MissingPassno,
    InvalidPassno(Seq<char>),
    MissingId,
    InvalidId(Seq<char>),
    MissingParentId,
    InvalidParentId(Seq<char>),
    MissingMajMin,
    InvalidMajMin(Seq<char>),
    MissingRoot,
    InvalidRoot(Seq<char>),
    MissingOptional,
    InvalidOptional(Seq<char>),
    MissingSuperOptions,
    InvalidSuperOptions(Seq<char>),
}

impl View for LineError {
    type V = LineErrorView;

    open spec fn view(&self) -> LineErrorView {
        match self {
            LineError::MissingSpec => LineErrorView::MissingSpec,
            LineError::MissingFile => LineErrorView::MissingFile,
            LineError::InvalidFilePath(f) => LineErrorView::InvalidFilePath(f@),
            LineError::InvalidFile(f) => LineErrorView::InvalidFile(f@),
            LineError::MissingVfstype => LineErrorView::MissingVfstype,
            LineError::MissingMntops => LineErrorView::MissingMntops,
            LineError::MissingFreq => LineErrorView::MissingFreq,
            LineError::InvalidFreq(f) => LineErrorView::InvalidFreq(f@),
            LineError::MissingPassno => LineErrorView::MissingPassno,
            LineError::InvalidPassno(f) => LineErrorView::InvalidPassno(f@),
            LineError::MissingId => LineErrorView::MissingId,
            LineError::InvalidId(f) => LineErrorView::InvalidId(f@),
            LineError::MissingParentId => LineErrorView::MissingParentId,
            LineError::InvalidParentId(f) => LineErrorView::InvalidParentId(f@),
            LineError::MissingMajMin => LineErrorView::MissingMajMin,
            LineError::InvalidMajMin(f) => LineErrorView::InvalidMajMin(f@),
            LineError::MissingRoot => LineErrorView::MissingRoot,
            LineError::InvalidRoot(f) => LineErrorView::InvalidRoot(f@),
            LineError::MissingOptional => LineErrorView::MissingOptional,
            LineError::InvalidOptional(f) => LineErrorView::InvalidOptional(f@),
            LineError::MissingSuperOptions => LineErrorView::MissingSuperOptions,
            LineError::InvalidSuperOptions(f) => LineErrorView::InvalidSuperOptions(f@),
        }
    }
}

/// The rendered description of a line error.
pub open spec fn line_error_desc(e: LineErrorView) -> Seq<char> {
    "Line parsing: "@ + match e {
        LineErrorView::MissingSpec => "Missing field: spec"@,
        LineErrorView::MissingFile => "Missing field: file"@,
        LineErrorView::InvalidFilePath(f) => "Bad 'file' field value (not absolute path): "@ + f,
        LineErrorView::InvalidFile(f) => "Bad 'file' field value: "@ + f,
        LineErrorView::MissingVfstype => "Missing field: vfstype"@,
        LineErrorView::MissingMntops => "Missing field: mntops"@,
        LineErrorView::MissingFreq => "Missing field: freq"@,
        LineErrorView::InvalidFreq(f) => "Bad 'dump' field value: "@ + f,
        LineErrorView::MissingPassno => "Missing field: passno"@,
        LineErrorView::InvalidPassno(f) => "Bad 'passno' field value: "@ + f,
        LineErrorView::MissingId => "Missing field: id"@,
        LineErrorView::InvalidId(f) => "Bad 'id' field value: "@ + f,
        LineErrorView::MissingParentId => "Missing field: parent id"@,
        LineErrorView::InvalidParentId(f) => "Bad 'parent id' field value: "@ + f,
        LineErrorView::MissingMajMin => "Missing field: maj:min"@,
        LineErrorView::InvalidMajMin(f) => "Bad 'maj:min' field value: "@ + f,
        LineErrorView::MissingRoot => "Missing field: root"@,
        LineErrorView::InvalidRoot(f) => "Bad 'root' field value: "@ + f,
        LineErrorView::MissingOptional => "Missing field: optional"@,
        LineErrorView::InvalidOptional(f) => "Bad 'optional' field value: "@ + f,
        LineErrorView::MissingSuperOptions => "Missing field: superoptions"@,
        LineErrorView::InvalidSuperOptions(f) => "Bad 'superoptions' field value: "@ + f,
    }
}

impl LineError {
    /// The human-readable description of this error.
    pub fn message(&self) -> (r: String)
        ensures
            r@ == line_error_desc(self@),
    {
        let head = "Line parsing: ".to_owned();
        match self {
            LineError::MissingSpec => head.concat("Missing field: spec"),
            LineError::MissingFile => head.concat("Missing field: file"),
            LineError::InvalidFilePath(f) => head.concat(
                "Bad 'file' field value (not absolute path): ",
            ).concat(f.as_str()),
            LineError::InvalidFile(f) => head.concat("Bad 'file' field value: ").concat(f.as_str()),
            LineError::MissingVfstype => head.concat("Missing field: vfstype"),
            LineError::MissingMntops => head.concat("Missing field: mntops"),
            LineError::MissingFreq => head.concat("Missing field: freq"),
            LineError::InvalidFreq(f) => head.concat("Bad 'dump' field value: ").concat(f.as_str()),
            LineError::MissingPassno => head.concat("Missing field: passno"),
            LineError::InvalidPassno(f) => head.concat("Bad 'passno' field value: ").concat(
                f.as_str(),
            ),
            LineError::MissingId => head.concat("Missing field: id"),
            LineError::InvalidId(f) => head.concat("Bad 'id' field value: ").concat(f.as_str()),
            LineError::MissingParentId => head.concat("Missing field: parent id"),
            LineError::InvalidParentId(f) => head.concat("Bad 'parent id' field value: ").concat(
                f.as_str(),
            ),
            LineError::MissingMajMin => head.concat("Missing field: maj:min"),
            LineError::InvalidMajMin(f) => head.concat("Bad 'maj:min' field value: ").concat(
                f.as_str(),
            ),
            LineError::MissingRoot => head.concat("Missing field: root"),
            LineError::InvalidRoot(f) => head.concat("Bad 'root' field value: ").concat(f.as_str()),
            LineError::MissingOptional => head.concat("Missing field: optional"),
            LineError::InvalidOptional(f) => head.concat("Bad 'optional' field value: ").concat(
                f.as_str(),
            ),
            LineError::MissingSuperOptions => head.concat("Missing field: superoptions"),
            LineError::InvalidSuperOptions(f) => head.concat(
                "Bad 'superoptions' field value: ",
            ).concat(f.as_str()),
        }
    }
}

/// A stream-level parse failure, carrying a rendered description: either a
/// line error annotated with the line it came from, or a read failure
/// reported by the caller that owns the input source.
#[derive(Clone, Debug, PartialEq, Eq)]
pub struct ParseError {
    desc: String,
}

impl View for ParseError {
    type V = Seq<char>;

    closed spec fn view(&self) -> Seq<char> {
        self.desc@
    }
}

/// The description `ParseError::new` gives a detail text.
pub open spec fn parse_error_desc(detail: Seq<char>) -> Seq<char> {
    "Mount parsing: "@ + detail
}

/// The description of a line error observed at 0-based line `nb`.
pub open spec fn line_failure_desc(nb: int, e: LineErrorView) -> Seq<char> {
    parse_error_desc("Failed at line "@ + dec_str(nb) + ": "@ + line_error_desc(e))
}

impl ParseError {
    /// Wrap a detail text into a parse error.
    pub fn new(detail: String) -> (r: ParseError)
        ensures
            r@ == parse_error_desc(detail@),
    {
        ParseError { desc: "Mount parsing: ".to_owned().concat(detail.as_str()) }
    }

    /// Wrap a line error observed at 0-based line `nb`.
    pub fn at_line(nb: usize, e: &LineError) -> (r: ParseError)
        ensures
            r@ == line_failure_desc(nb as int, e@),
    {
        let detail = "Failed at line ".to_owned().concat(usize_to_string(nb).as_str()).concat(
            ": ",
        ).concat(e.message().as_str());
        proof {
            assert("Failed at line "@ + dec_str(nb as int) + ": "@ + line_error_desc(e@)
                =~= (("Failed at line "@ + dec_str(nb as int)) + ": "@) + line_error_desc(e@));
        }
        ParseError::new(detail)
    }

    /// The human-readable description of this error.
    pub fn description(&self) -> (r: &str)
        ensures
            r@ == self@,
    {
        self.desc.as_str()
    }
}

} // verus!

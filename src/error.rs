//! The error type of every parse operation in the library.
use crate::text::{decimal, decimal_string};
use vstd::prelude::*;

verus! {

/// What went wrong; the text it concerns is held beside it in `VcfError`.
#[derive(Clone, Copy, Debug, PartialEq, Eq, Structural)]
pub enum ErrorKind {
    /// A header payload with nothing in it.
    EmptyPayload,
    /// A header payload with only one of `<` and `>` around it.
    UnbalancedBrackets,
    /// A `key=value` pair whose key is empty.
    EmptyKey,
    /// A `key=value` pair whose value is empty.
    EmptyValue,
    /// A quote or bracket inside a bare value.
    InvalidCharacter(char),
    /// Something other than `,` after a closing quote or bracket.
    TextAfterQuote,
    /// A quoted or bracketed value that is never closed.
    UnbalancedQuote,
    /// A header line without `=`.
    MissingEquals,
    /// A header line whose tag does not follow `##`.
    MissingHashes,
    /// A key that a header line kind requires is absent.
    ValueNotFound,
    /// A `Number` attribute that is neither a count nor `A`, `R`, `G`, `.`.
    InvalidNumber,
    /// An INFO `Type` attribute that names no INFO type.
    InvalidInfoType,
    /// A FORMAT `Type` attribute that names no FORMAT type.
    InvalidFormatType,
    /// An empty entry in the colon-separated ID of an ALT line.
    EmptyAltId,
    /// A key of an ancestors pedigree line that is neither `ID` nor `Name_...`.
    InvalidPedigreeName,
    /// A pedigree line with no `Original`, `Father`, `Mother` or `Name_1` key.
    InvalidPedigree,
    /// A version line that does not start with `##fileformat=`.
    InvalidVersionLine,
    /// A column line that does not start with the eight fixed columns.
    InvalidColumnsLine,
    /// A column line with something else than `FORMAT` after the fixed columns.
    UnexpectedColumn,
    /// A column line that names a sample twice.
    DuplicateSampleName,
    /// A line of the header block that is none of the header shapes.
    InvalidHeaderLine,
    /// A data line with a wrong number of tab-separated columns.
    ColumnCount { expected: usize, found: usize },
    /// A data-line column that is empty.
    EmptyField,
    /// A column or attribute that should hold an unsigned integer.
    InvalidInteger,
    /// Reading from the underlying source failed.
    Io,
    /// Compressing or decompressing failed.
    Codec,
}

/// A parse error: its kind and the text it concerns (a payload, a line, a
/// key, a column name or a cause, depending on the kind).
#[derive(Debug, PartialEq)]
pub struct VcfError {
    pub kind: ErrorKind,
    pub subject: String,
}

/// The model of an error: its kind and the characters of its subject.
pub type ErrorView = (ErrorKind, Seq<char>);

impl View for VcfError {
    type V = ErrorView;

    open spec fn view(&self) -> ErrorView {
        (self.kind, self.subject@)
    }
}

/// `a`, then `s` between backquotes, then `b`.
pub open spec fn quoted_in(a: Seq<char>, s: Seq<char>, b: Seq<char>) -> Seq<char> {
    a + "`"@ + s + "`"@ + b
}

/// The message that describes an error.
pub open spec fn message(kind: ErrorKind, s: Seq<char>) -> Seq<char> {
    match kind {
        ErrorKind::EmptyPayload => "invalid header payload, (empty)"@,
        ErrorKind::UnbalancedBrackets => quoted_in(
            "invalid header payload "@,
            s,
            ", (unbalanced triangle brackets)"@,
        ),
        ErrorKind::EmptyKey => quoted_in("invalid header payload "@, s, ", (empty key)"@),
        ErrorKind::EmptyValue => quoted_in("invalid header payload "@, s, ", (empty value)"@),
        ErrorKind::InvalidCharacter(c) => quoted_in("invalid header payload "@, s, ""@)
            + ", (invalid character `"@ + seq![c] + "` found)"@,
        ErrorKind::TextAfterQuote => quoted_in(
            "invalid header payload "@,
            s,
            ", non `,` character found after closing quote"@,
        ),
        ErrorKind::UnbalancedQuote => quoted_in(
            "invalid header payload "@,
            s,
            ", (unbalanced quote)"@,
        ),
        ErrorKind::MissingEquals => quoted_in(
            "invalid header line "@,
            s,
            ", (header lines must contain an `=` sign)"@,
        ),
        ErrorKind::MissingHashes => quoted_in(
            "invalid header type "@,
            s,
            ", (header lines must start with `##`)"@,
        ),
        ErrorKind::ValueNotFound => quoted_in("value not found in map: value="@, s, ""@),
        ErrorKind::InvalidNumber => quoted_in("invalid Number value "@, s, ""@),
        ErrorKind::InvalidInfoType => quoted_in("invalid InfoType value "@, s, ""@),
        ErrorKind::InvalidFormatType => quoted_in("invalid FormatType value "@, s, ""@),
        ErrorKind::EmptyAltId => "invalid AltId, empty value"@,
        ErrorKind::InvalidPedigreeName => quoted_in("invalid pedigree type name "@, s, ""@),
        ErrorKind::InvalidPedigree => quoted_in("invalid pedigree type: "@, s, ""@),
        ErrorKind::InvalidVersionLine => quoted_in("invalid version line "@, s, ""@),
        ErrorKind::InvalidColumnsLine => quoted_in(
            "invalid columns line "@,
            s,
            " (columns line should start with the fixed columns)"@,
        ),
        ErrorKind::UnexpectedColumn => quoted_in(
            "unexpected column name after `INFO` in line "@,
            s,
            ""@,
        ),
        ErrorKind::DuplicateSampleName => quoted_in(
            "sample column names must be unique, repeated: "@,
            s,
            ""@,
        ),
        ErrorKind::InvalidHeaderLine => quoted_in("Invalid line while parsing header: "@, s, ""@),
        ErrorKind::ColumnCount { expected, found } => "invalid number of columns found, expected "@
            + decimal(expected as nat) + ", found "@ + decimal(found as nat),
        ErrorKind::EmptyField => s + " cannot be empty"@,
        ErrorKind::InvalidInteger => quoted_in("invalid integer "@, s, ""@),
        ErrorKind::Io => quoted_in("Could not read: "@, s, ""@),
        ErrorKind::Codec => quoted_in("compression failed: "@, s, ""@),
    }
}

/// Appends `a`, then `s` between backquotes, then `b`.
fn push_quoted(r: &mut String, a: &str, s: &String, b: &str)
    ensures
        final(r)@ == old(r)@ + quoted_in(a@, s@, b@),
{
    r.append(a);
    r.append("`");
    r.append(s.as_str());
    r.append("`");
    r.append(b);
    assert(final(r)@ =~= old(r)@ + quoted_in(a@, s@, b@));
}

impl VcfError {
    pub fn new(kind: ErrorKind, subject: String) -> (e: VcfError)
        ensures
            e@ == (kind, subject@),
    {
        VcfError { kind, subject }
    }

    /// The message that describes the error.
    pub fn to_string(&self) -> (r: String)
        ensures
            r@ == message(self.kind, self.subject@),
    {
        let s = &self.subject;
        let mut r = String::new();
        match self.kind {
            ErrorKind::EmptyPayload => r.append("invalid header payload, (empty)"),
            ErrorKind::UnbalancedBrackets => push_quoted(
                &mut r,
                "invalid header payload ",
                s,
                ", (unbalanced triangle brackets)",
            ),
            ErrorKind::EmptyKey => push_quoted(&mut r, "invalid header payload ", s, ", (empty key)"),
            ErrorKind::EmptyValue => push_quoted(
                &mut r,
                "invalid header payload ",
                s,
                ", (empty value)",
            ),
            ErrorKind::InvalidCharacter(c) => {
                push_quoted(&mut r, "invalid header payload ", s, "");
                r.append(", (invalid character `");
                r.push(c);
                r.append("` found)");
            },
            ErrorKind::TextAfterQuote => push_quoted(
                &mut r,
                "invalid header payload ",
                s,
                ", non `,` character found after closing quote",
            ),
            ErrorKind::UnbalancedQuote => push_quoted(
                &mut r,
                "invalid header payload ",
                s,
                ", (unbalanced quote)",
            ),
            ErrorKind::MissingEquals => push_quoted(
                &mut r,
                "invalid header line ",
                s,
                ", (header lines must contain an `=` sign)",
            ),
            ErrorKind::MissingHashes => push_quoted(
                &mut r,
                "invalid header type ",
                s,
                ", (header lines must start with `##`)",
            ),
            ErrorKind::ValueNotFound => push_quoted(&mut r, "value not found in map: value=", s, ""),
            ErrorKind::InvalidNumber => push_quoted(&mut r, "invalid Number value ", s, ""),
            ErrorKind::InvalidInfoType => push_quoted(&mut r, "invalid InfoType value ", s, ""),
            ErrorKind::InvalidFormatType => push_quoted(&mut r, "invalid FormatType value ", s, ""),
            ErrorKind::EmptyAltId => r.append("invalid AltId, empty value"),
            ErrorKind::InvalidPedigreeName => push_quoted(
                &mut r,
                "invalid pedigree type name ",
                s,
                "",
            ),
            ErrorKind::InvalidPedigree => push_quoted(&mut r, "invalid pedigree type: ", s, ""),
            ErrorKind::InvalidVersionLine => push_quoted(&mut r, "invalid version line ", s, ""),
            ErrorKind::InvalidColumnsLine => push_quoted(
                &mut r,
                "invalid columns line ",
                s,
                " (columns line should start with the fixed columns)",
            ),
            ErrorKind::UnexpectedColumn => push_quoted(
                &mut r,
                "unexpected column name after `INFO` in line ",
                s,
                "",
            ),
            ErrorKind::DuplicateSampleName => push_quoted(
                &mut r,
                "sample column names must be unique, repeated: ",
                s,
                "",
            ),
            ErrorKind::InvalidHeaderLine => push_quoted(
                &mut r,
                "Invalid line while parsing header: ",
                s,
                "",
            ),
            ErrorKind::ColumnCount { expected, found } => {
                r.append("invalid number of columns found, expected ");
                let e = decimal_string(expected as u64);
                r.append(e.as_str());
                r.append(", found ");
                let f = decimal_string(found as u64);
                r.append(f.as_str());
            },
            ErrorKind::EmptyField => {
                r.append(s.as_str());
                r.append(" cannot be empty");
            },
            ErrorKind::InvalidInteger => push_quoted(&mut r, "invalid integer ", s, ""),
            ErrorKind::Io => push_quoted(&mut r, "Could not read: ", s, ""),
            ErrorKind::Codec => push_quoted(&mut r, "compression failed: ", s, ""),
        }
        assert(r@ =~= message(self.kind, self.subject@));
        r
    }
}

} // verus!

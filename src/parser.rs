//! Sequential reading and writing. Reading the source and writing to the
//! sink happen outside the library; here are the decisions: how each line
//! of the header block is taken, how each later line becomes a data line,
//! and what text the writer emits.
use crate::body::{data_line_text, parse_data_line, tab, DataLine};
use crate::error::{ErrorKind, ErrorView, VcfError};
use crate::header::{
    column_names_of, columns_marker, parse_column_names, parse_version, starts_with,
    version_marker, version_of, Header,
};
use crate::header_line::{header_line_of, header_line_text, HeaderLine, HeaderLineView};
use crate::text::{chars_of, has_prefix, string_of, views};
use vstd::prelude::*;

verus! {

/// `s` without one line break at its end.
pub open spec fn strip_newline(s: Seq<char>) -> Seq<char> {
    if s.len() > 0 && s.last() == '\n' {
        s.drop_last()
    } else {
        s
    }
}

/// A line without one line break at its end.
fn without_newline(line: &str) -> (r: String)
    ensures
        r@ == strip_newline(line@),
{
    let v = chars_of(line);
    let n = v.len();
    if n > 0 && v[n - 1] == '\n' {
        let r = string_of(&v, 0, n - 1);
        assert(v@.subrange(0, n - 1) =~= v@.drop_last());
        r
    } else {
        let r = string_of(&v, 0, n);
        assert(v@.subrange(0, n as int) =~= v@);
        r
    }
}

/// What reading the next line of the source gave.
pub enum LineEvent {
    /// A line, with its line break if it had one.
    Line(String),
    /// The end of the source.
    End,
    /// Reading failed; the text describes why.
    Failed(String),
}

/// Turns the lines after the header into data lines.
pub struct VCFReader {
    /// The sample column names of the header.
    pub column_names: Vec<String>,
}

impl VCFReader {
    pub fn new(column_names: Vec<String>) -> (r: VCFReader)
        ensures
            r.column_names == column_names,
    {
        VCFReader { column_names }
    }

    /// The next item of the sequence of data lines, from what reading the
    /// next line gave: nothing at the end, an error if reading failed, else
    /// the line read as a data line.
    pub fn next_item(&self, event: LineEvent) -> (r: Option<Result<DataLine, VcfError>>)
        requires
            self.column_names@.len() + 9 <= usize::MAX,
        ensures
            match event {
                LineEvent::End => r is None,
                LineEvent::Failed(m) => r matches Some(Err(e)) && e@ == (ErrorKind::Io, m@),
                LineEvent::Line(l) => r matches Some(x) && parse_data_line(
                    strip_newline(l@),
                    self.column_names@.len() as nat,
                ) == match x {
                    Ok(d) => Ok::<_, ErrorView>(d@),
                    Err(e) => Err(e@),
                },
            },
    {
        match event {
            LineEvent::End => None,
            LineEvent::Failed(m) => Some(Err(VcfError::new(ErrorKind::Io, m))),
            LineEvent::Line(l) => {
                let line = without_newline(l.as_str());
                Some(DataLine::new(line.as_str(), self.column_names.as_slice()))
            },
        }
    }
}

/// The views of header lines.
pub open spec fn line_views(ls: Seq<HeaderLine>) -> Seq<HeaderLineView> {
    ls.map_values(|h: HeaderLine| h@)
}

/// Collects the header block line by line, up to the column line.
pub struct HeaderBuilder {
    /// The version of the last version line; empty if there was none.
    pub version: String,
    pub header_lines: Vec<HeaderLine>,
    pub column_names: Vec<String>,
    /// Whether the column line, which ends the header, has been read.
    pub complete: bool,
}

impl HeaderBuilder {
    pub fn new() -> (b: HeaderBuilder)
        ensures
            b.version@ == Seq::<char>::empty(),
            b.header_lines@ == Seq::<HeaderLine>::empty(),
            b.column_names@ == Seq::<String>::empty(),
            !b.complete,
    {
        HeaderBuilder {
            version: String::new(),
            header_lines: Vec::new(),
            column_names: Vec::new(),
            complete: false,
        }
    }

    /// Takes the next line of the header block, with or without its line
    /// break: a version line sets the version, another `##` line is added
    /// as a header line, and a `#` line gives the sample names and completes
    /// the header. Any other line is an error. On an error nothing changes.
    #[verifier::spinoff_prover]
    pub fn read_line(&mut self, raw: &str) -> (r: Result<(), VcfError>)
        ensures
            ({
                let l = strip_newline(raw@);
                let b0 = *old(self);
                let b1 = *final(self);
                if starts_with(l, version_marker()) {
                    match r {
                        Ok(_) => version_of(l) == Ok::<_, ErrorView>(b1.version@)
                            && b1.header_lines@ == b0.header_lines@ && b1.column_names@
                            == b0.column_names@ && b1.complete == b0.complete,
                        Err(e) => version_of(l) == Err::<Seq<char>, _>(e@) && b1 == b0,
                    }
                } else if starts_with(l, seq!['#', '#']) {
                    match r {
                        Ok(_) => b1.header_lines@.len() == b0.header_lines@.len() + 1
                            && b1.header_lines@.drop_last() == b0.header_lines@ && header_line_of(l)
                            == Ok::<_, ErrorView>(b1.header_lines@.last()@) && b1.version
                            == b0.version && b1.column_names@ == b0.column_names@ && b1.complete
                            == b0.complete,
                        Err(e) => header_line_of(l) == Err::<HeaderLineView, _>(e@) && b1 == b0,
                    }
                } else if starts_with(l, seq!['#']) {
                    match r {
                        Ok(_) => column_names_of(l) == Ok::<_, ErrorView>(views(b1.column_names@))
                            && b1.complete && b1.version == b0.version && b1.header_lines
                            == b0.header_lines,
                        Err(e) => column_names_of(l) == Err::<Seq<Seq<char>>, _>(e@) && b1 == b0,
                    }
                } else {
                    r matches Err(e) && e@ == (ErrorKind::InvalidHeaderLine, l) && b1 == b0
                }
            }),
    {
        let line = without_newline(raw);
        let v = chars_of(line.as_str());
        let n = v.len();
        let marker = chars_of("##fileformat=");
        proof {
            if marker@.len() <= n {
                assert(v@.subrange(0, marker@.len() as int) =~= v@.take(marker@.len() as int));
            }
            if 2 <= n {
                assert(v@.take(2) =~= seq![v@[0], v@[1]]);
            }
            if 1 <= n {
                assert(v@.take(1) =~= seq![v@[0]]);
            }
            if starts_with(v@, seq!['#']) {
                assert(v@.take(1)[0] == seq!['#'][0]);
            }
            if starts_with(v@, seq!['#', '#']) {
                assert(v@.take(2)[0] == seq!['#', '#'][0]);
                assert(v@.take(2)[1] == seq!['#', '#'][1]);
            }
        }
        if has_prefix(&v, 0, n, &marker) {
            let version = parse_version(line.as_str())?;
            self.version = version;
            Ok(())
        } else if n >= 2 && v[0] == '#' && v[1] == '#' {
            let h = HeaderLine::from_str(line.as_str())?;
            self.header_lines.push(h);
            assert(self.header_lines@.drop_last() =~= old(self).header_lines@);
            Ok(())
        } else if n >= 1 && v[0] == '#' {
            let names = parse_column_names(line.as_str())?;
            self.column_names = names;
            self.complete = true;
            Ok(())
        } else {
            Err(VcfError::new(ErrorKind::InvalidHeaderLine, line))
        }
    }

    /// The header collected so far.
    pub fn into_header(self) -> (h: Header)
        ensures
            h.version.value == self.version,
            h.header_lines == self.header_lines,
            h.column_names == self.column_names,
    {
        Header::new(self.version, self.header_lines, self.column_names)
    }
}

pub open spec fn newline() -> Seq<char> {
    seq!['\n']
}

/// Each header line followed by a line break.
pub open spec fn lines_text(ls: Seq<HeaderLineView>) -> Seq<char>
    decreases ls.len(),
{
    if ls.len() == 0 {
        Seq::empty()
    } else {
        lines_text(ls.drop_last()) + header_line_text(ls.last()) + newline()
    }
}

/// Each name preceded by a tab.
pub open spec fn names_text(ns: Seq<Seq<char>>) -> Seq<char>
    decreases ns.len(),
{
    if ns.len() == 0 {
        Seq::empty()
    } else {
        names_text(ns.drop_last()) + tab() + ns.last()
    }
}

/// The header block: the version line, each header line, then the column
/// line, with FORMAT and the sample names if there are samples. The column
/// line has no line break: each data line starts with one.
pub open spec fn header_text(
    version: Seq<char>,
    lines: Seq<HeaderLineView>,
    names: Seq<Seq<char>>,
) -> Seq<char> {
    version_marker() + version + newline() + lines_text(lines) + columns_marker() + if names.len()
        > 0 {
        "\tFORMAT"@ + names_text(names)
    } else {
        Seq::empty()
    }
}

/// Produces the text of a file: the header block when it is made, then one
/// data line per call. The text not yet handed on waits in `pending`.
pub struct VCFWriter {
    pub pending: String,
}

impl VCFWriter {
    /// A writer whose pending text is the header block.
    #[verifier::spinoff_prover]
    pub fn new(header: &Header) -> (w: VCFWriter)
        ensures
            w.pending@ == header_text(
                header.version.value@,
                line_views(header.header_lines@),
                views(header.column_names@),
            ),
    {
        let mut r = header.version.to_string();
        r.push('\n');
        let ghost head = r@;
        let ghost lv = line_views(header.header_lines@);
        let mut i: usize = 0;
        assert(lv.take(0) =~= Seq::<HeaderLineView>::empty());
        while i < header.header_lines.len()
            invariant
                i <= header.header_lines@.len(),
                lv == line_views(header.header_lines@),
                r@ == head + lines_text(lv.take(i as int)),
            decreases header.header_lines@.len() - i,
        {
            assert(lv.take(i + 1).drop_last() =~= lv.take(i as int));
            let t = header.header_lines[i].to_string();
            r.append(t.as_str());
            r.push('\n');
            i += 1;
            assert(r@ =~= head + lines_text(lv.take(i as int)));
        }
        assert(lv.take(i as int) =~= lv);
        r.append("#CHROM\tPOS\tID\tREF\tALT\tQUAL\tFILTER\tINFO");
        let ghost cols = r@;
        let ghost nv = views(header.column_names@);
        if header.column_names.len() > 0 {
            r.append("\tFORMAT");
            let ghost fmt = r@;
            let mut j: usize = 0;
            assert(nv.take(0) =~= Seq::<Seq<char>>::empty());
            while j < header.column_names.len()
                invariant
                    j <= header.column_names@.len(),
                    nv == views(header.column_names@),
                    r@ == fmt + names_text(nv.take(j as int)),
                decreases header.column_names@.len() - j,
            {
                assert(nv.take(j + 1).drop_last() =~= nv.take(j as int));
                r.push('\t');
                r.append(header.column_names[j].as_str());
                j += 1;
                assert(r@ =~= fmt + names_text(nv.take(j as int)));
            }
            assert(nv.take(j as int) =~= nv);
        }
        assert(r@ =~= header_text(header.version.value@, lv, nv));
        VCFWriter { pending: r }
    }

    /// Adds a line break and the data line to the pending text.
    pub fn write_data_line(&mut self, dl: &DataLine)
        ensures
            final(self).pending@ == old(self).pending@ + newline() + data_line_text(dl@),
    {
        self.pending.push('\n');
        let t = dl.to_string();
        self.pending.append(t.as_str());
        assert(self.pending@ =~= old(self).pending@ + newline() + data_line_text(dl@));
    }

    /// Hands on the pending text, leaving none.
    pub fn take_pending(&mut self) -> (r: String)
        ensures
            r@ == old(self).pending@,
            final(self).pending@ == Seq::<char>::empty(),
    {
        let mut r = String::new();
        std::mem::swap(&mut self.pending, &mut r);
        r
    }
}

} // verus!

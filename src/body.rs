//! Data lines: the eight fixed columns, the optional FORMAT column and the
//! per-sample columns, each parsed into a typed field and written back.
use crate::error::{ErrorKind, ErrorView, VcfError};
use crate::text::{
    chars_of, decimal, decimal_string, join, join_strings, parse_unsigned, split, split_range,
    unsigned_of, views,
};
use vstd::prelude::*;

verus! {

/// The number of fixed columns of a data line.
pub const FIXED_COLUMN_COUNT: usize = 8;

/// The model of a column that is either missing (`.`) or a delimited list.
pub enum ListView {
    Missing,
    /// Only for the FILTER column: `PASS`.
    Pass,
    Entries(Seq<Seq<char>>),
}

pub open spec fn dot() -> Seq<char> {
    seq!['.']
}

pub open spec fn pass_text() -> Seq<char> {
    seq!['P', 'A', 'S', 'S']
}

/// A column that is `.` or a list split on `d`; `name` names it in the
/// error for an empty column.
pub open spec fn parse_list(s: Seq<char>, d: char, name: Seq<char>) -> Result<ListView, ErrorView> {
    if s.len() == 0 {
        Err((ErrorKind::EmptyField, name))
    } else if s == dot() {
        Ok(ListView::Missing)
    } else {
        Ok(ListView::Entries(split(s, d)))
    }
}

/// The ID column: `.` or identifiers split on `;`, none of them empty.
pub open spec fn parse_id(s: Seq<char>) -> Result<ListView, ErrorView> {
    match parse_list(s, ';', "id"@) {
        Ok(ListView::Entries(es)) => if exists|i: int| 0 <= i < es.len() && (#[trigger] es[i]).len()
            == 0 {
            Err((ErrorKind::EmptyField, "id"@))
        } else {
            Ok(ListView::Entries(es))
        },
        r => r,
    }
}

/// The FILTER column: `.`, `PASS` or a list split on `;`.
pub open spec fn parse_filter(s: Seq<char>) -> Result<ListView, ErrorView> {
    if s == pass_text() {
        Ok(ListView::Pass)
    } else {
        parse_list(s, ';', "filter"@)
    }
}

/// The text of a list column.
pub open spec fn list_text(l: ListView, d: char) -> Seq<char> {
    match l {
        ListView::Missing => dot(),
        ListView::Pass => pass_text(),
        ListView::Entries(es) => join(es, d),
    }
}

/// Reads a column that is `.` or a list split on `d`: `None` for `.`.
fn parse_list_column(s: &str, d: char, name: &str) -> (r: Result<Option<Vec<String>>, VcfError>)
    ensures
        parse_list(s@, d, name@) == match r {
            Ok(None) => Ok::<_, ErrorView>(ListView::Missing),
            Ok(Some(es)) => Ok(ListView::Entries(views(es@))),
            Err(e) => Err(e@),
        },
{
    let v = chars_of(s);
    if v.len() == 0 {
        return Err(VcfError::new(ErrorKind::EmptyField, name.to_owned()));
    }
    if v.len() == 1 && v[0] == '.' {
        assert(s@ =~= dot());
        return Ok(None);
    }
    assert(s@ != dot()) by {
        if s@ == dot() {
            assert(s@[0] == '.');
        }
    }
    let es = split_range(&v, 0, v.len(), d);
    assert(v@.subrange(0, v@.len() as int) =~= s@);
    Ok(Some(es))
}

/// Writes a list column: `.` for a missing one, else the entries joined by `d`.
fn list_column_text(es: &Option<Vec<String>>, d: char) -> (r: String)
    ensures
        r@ == match es {
            None => dot(),
            Some(es) => join(views(es@), d),
        },
{
    match es {
        None => {
            let mut r = String::new();
            r.push('.');
            assert(r@ =~= dot());
            r
        },
        Some(es) => join_strings(es, d),
    }
}

/// The ID column: `.` or identifiers separated by `;`.
#[derive(Debug, PartialEq)]
pub enum IdType {
    Missing,
    Entries(Vec<String>),
}

impl View for IdType {
    type V = ListView;

    open spec fn view(&self) -> ListView {
        match self {
            IdType::Missing => ListView::Missing,
            IdType::Entries(es) => ListView::Entries(views(es@)),
        }
    }
}

impl IdType {
    /// Reads the ID column; an empty identifier in the list is an error.
    pub fn from_str(s: &str) -> (r: Result<IdType, VcfError>)
        ensures
            parse_id(s@) == match r {
                Ok(x) => Ok::<_, ErrorView>(x@),
                Err(e) => Err(e@),
            },
    {
        match parse_list_column(s, ';', "id") {
            Ok(None) => Ok(IdType::Missing),
            Ok(Some(es)) => {
                let mut i: usize = 0;
                while i < es.len()
                    invariant
                        i <= es@.len(),
                        parse_list(s@, ';', "id"@) == Ok::<_, ErrorView>(ListView::Entries(views(es@))),
                        forall|j: int| 0 <= j < i ==> (#[trigger] views(es@)[j]).len() > 0,
                    decreases es@.len() - i,
                {
                    if es[i].as_str().is_empty() {
                        assert(views(es@)[i as int].len() == 0);
                        return Err(VcfError::new(ErrorKind::EmptyField, "id".to_owned()));
                    }
                    i += 1;
                }
                assert(!(exists|j: int| 0 <= j < views(es@).len() && (#[trigger] views(es@)[j]).len()
                    == 0));
                Ok(IdType::Entries(es))
            },
            Err(e) => Err(e),
        }
    }

    pub fn to_string(&self) -> (r: String)
        ensures
            r@ == list_text(self@, ';'),
    {
        match self {
            IdType::Missing => list_column_text(&None, ';'),
            IdType::Entries(es) => join_strings(es, ';'),
        }
    }
}

/// The ALT column: `.` or alternate alleles separated by `,`.
#[derive(Debug, PartialEq)]
pub enum AltType {
    Missing,
    Entries(Vec<String>),
}

impl View for AltType {
    type V = ListView;

    open spec fn view(&self) -> ListView {
        match self {
            AltType::Missing => ListView::Missing,
            AltType::Entries(es) => ListView::Entries(views(es@)),
        }
    }
}

impl AltType {
    pub fn from_str(s: &str) -> (r: Result<AltType, VcfError>)
        ensures
            parse_list(s@, ',', "alt"@) == match r {
                Ok(x) => Ok::<_, ErrorView>(x@),
                Err(e) => Err(e@),
            },
    {
        match parse_list_column(s, ',', "alt") {
            Ok(None) => Ok(AltType::Missing),
            Ok(Some(es)) => Ok(AltType::Entries(es)),
            Err(e) => Err(e),
        }
    }

    pub fn to_string(&self) -> (r: String)
        ensures
            r@ == list_text(self@, ','),
    {
        match self {
            AltType::Missing => list_column_text(&None, ','),
            AltType::Entries(es) => join_strings(es, ','),
        }
    }
}

/// The QUAL column: `.` or an unsigned integer.
#[derive(Clone, Copy, Debug, PartialEq, Eq, Structural)]
pub enum QualType {
    Missing,
    Integer(u32),
}

/// The QUAL column read from `s`.
pub open spec fn parse_qual(s: Seq<char>) -> Result<QualType, ErrorView> {
    if s.len() == 0 {
        Err((ErrorKind::EmptyField, "qual"@))
    } else if s == dot() {
        Ok(QualType::Missing)
    } else {
        match unsigned_of(s, u32::MAX as nat) {
            Some(n) => Ok(QualType::Integer(n as u32)),
            None => Err((ErrorKind::InvalidInteger, s)),
        }
    }
}

pub open spec fn qual_text(q: QualType) -> Seq<char> {
    match q {
        QualType::Missing => dot(),
        QualType::Integer(n) => decimal(n as nat),
    }
}

impl QualType {
    pub fn from_str(s: &str) -> (r: Result<QualType, VcfError>)
        ensures
            parse_qual(s@) == match r {
                Ok(x) => Ok::<_, ErrorView>(x),
                Err(e) => Err(e@),
            },
    {
        let v = chars_of(s);
        if v.len() == 0 {
            return Err(VcfError::new(ErrorKind::EmptyField, "qual".to_owned()));
        }
        if v.len() == 1 && v[0] == '.' {
            assert(s@ =~= dot());
            return Ok(QualType::Missing);
        }
        assert(s@ != dot()) by {
            if s@ == dot() {
                assert(s@[0] == '.');
            }
        }
        assert(v@.subrange(0, v@.len() as int) =~= s@);
        match parse_unsigned(&v, 0, v.len(), u32::MAX as u64) {
            Some(n) => Ok(QualType::Integer(n as u32)),
            None => Err(VcfError::new(ErrorKind::InvalidInteger, s.to_owned())),
        }
    }

    pub fn to_string(&self) -> (r: String)
        ensures
            r@ == qual_text(*self),
    {
        match self {
            QualType::Missing => list_column_text(&None, ','),
            QualType::Integer(n) => decimal_string(*n as u64),
        }
    }
}

/// The FILTER column: `.`, `PASS` or filter names separated by `;`.
#[derive(Debug, PartialEq)]
pub enum FilterType {
    Missing,
    Pass,
    Entries(Vec<String>),
}

impl View for FilterType {
    type V = ListView;

    open spec fn view(&self) -> ListView {
        match self {
            FilterType::Missing => ListView::Missing,
            FilterType::Pass => ListView::Pass,
            FilterType::Entries(es) => ListView::Entries(views(es@)),
        }
    }
}

impl FilterType {
    pub fn from_str(s: &str) -> (r: Result<FilterType, VcfError>)
        ensures
            parse_filter(s@) == match r {
                Ok(x) => Ok::<_, ErrorView>(x@),
                Err(e) => Err(e@),
            },
    {
        let v = chars_of(s);
        if v.len() == 4 && v[0] == 'P' && v[1] == 'A' && v[2] == 'S' && v[3] == 'S' {
            assert(s@ =~= pass_text());
            return Ok(FilterType::Pass);
        }
        assert(s@ != pass_text()) by {
            if s@ == pass_text() {
                assert(v@[0] == 'P' && v@[1] == 'A' && v@[2] == 'S' && v@[3] == 'S');
            }
        }
        match parse_list_column(s, ';', "filter") {
            Ok(None) => Ok(FilterType::Missing),
            Ok(Some(es)) => Ok(FilterType::Entries(es)),
            Err(e) => Err(e),
        }
    }

    pub fn to_string(&self) -> (r: String)
        ensures
            r@ == list_text(self@, ';'),
    {
        match self {
            FilterType::Missing => list_column_text(&None, ';'),
            FilterType::Pass => {
                let r = "PASS".to_owned();
                proof {
                    reveal_strlit("PASS");
                }
                assert(r@ =~= pass_text());
                r
            },
            FilterType::Entries(es) => join_strings(es, ';'),
        }
    }
}

/// The INFO column: `.` or entries separated by `;`.
#[derive(Debug, PartialEq)]
pub enum InfoType {
    Missing,
    Entries(Vec<String>),
}

impl View for InfoType {
    type V = ListView;

    open spec fn view(&self) -> ListView {
        match self {
            InfoType::Missing => ListView::Missing,
            InfoType::Entries(es) => ListView::Entries(views(es@)),
        }
    }
}

impl InfoType {
    pub fn from_str(s: &str) -> (r: Result<InfoType, VcfError>)
        ensures
            parse_list(s@, ';', "info"@) == match r {
                Ok(x) => Ok::<_, ErrorView>(x@),
                Err(e) => Err(e@),
            },
    {
        match parse_list_column(s, ';', "info") {
            Ok(None) => Ok(InfoType::Missing),
            Ok(Some(es)) => Ok(InfoType::Entries(es)),
            Err(e) => Err(e),
        }
    }

    pub fn to_string(&self) -> (r: String)
        ensures
            r@ == list_text(self@, ';'),
    {
        match self {
            InfoType::Missing => list_column_text(&None, ';'),
            InfoType::Entries(es) => join_strings(es, ';'),
        }
    }
}

/// The FORMAT column: `.` or field keys separated by `:`.
#[derive(Debug, PartialEq)]
pub enum FormatType {
    Missing,
    Entries(Vec<String>),
}

impl View for FormatType {
    type V = ListView;

    open spec fn view(&self) -> ListView {
        match self {
            FormatType::Missing => ListView::Missing,
            FormatType::Entries(es) => ListView::Entries(views(es@)),
        }
    }
}

impl FormatType {
    pub fn from_str(s: &str) -> (r: Result<FormatType, VcfError>)
        ensures
            parse_list(s@, ':', "format"@) == match r {
                Ok(x) => Ok::<_, ErrorView>(x@),
                Err(e) => Err(e@),
            },
    {
        match parse_list_column(s, ':', "format") {
            Ok(None) => Ok(FormatType::Missing),
            Ok(Some(es)) => Ok(FormatType::Entries(es)),
            Err(e) => Err(e),
        }
    }

    pub fn to_string(&self) -> (r: String)
        ensures
            r@ == list_text(self@, ':'),
    {
        match self {
            FormatType::Missing => list_column_text(&None, ':'),
            FormatType::Entries(es) => join_strings(es, ':'),
        }
    }
}

/// A sample column: `.` or values separated by `:`, in the order of the
/// FORMAT keys.
#[derive(Debug, PartialEq)]
pub enum SampleType {
    Missing,
    Entries(Vec<String>),
}

impl View for SampleType {
    type V = ListView;

    open spec fn view(&self) -> ListView {
        match self {
            SampleType::Missing => ListView::Missing,
            SampleType::Entries(es) => ListView::Entries(views(es@)),
        }
    }
}

/// The views of sample columns.
pub open spec fn sample_views(s: Seq<SampleType>) -> Seq<ListView> {
    s.map_values(|x: SampleType| x@)
}

/// The sample columns read from `parts`, or the error of the first one that
/// is empty.
pub open spec fn parse_samples(parts: Seq<Seq<char>>) -> Result<Seq<ListView>, ErrorView>
    decreases parts.len(),
{
    if parts.len() == 0 {
        Ok(Seq::empty())
    } else {
        match parse_samples(parts.drop_last()) {
            Ok(ls) => match parse_list(parts.last(), ':', "sample"@) {
                Ok(l) => Ok(ls.push(l)),
                Err(e) => Err(e),
            },
            Err(e) => Err(e),
        }
    }
}

impl SampleType {
    /// Reads each sample column in turn.
    pub fn new(sample_vec: &[String]) -> (r: Result<Vec<SampleType>, VcfError>)
        ensures
            parse_samples(views(sample_vec@)) == match r {
                Ok(x) => Ok::<_, ErrorView>(sample_views(x@)),
                Err(e) => Err(e@),
            },
    {
        let mut result: Vec<SampleType> = Vec::new();
        let mut i: usize = 0;
        assert(views(sample_vec@).take(0) =~= Seq::<Seq<char>>::empty());
        assert(sample_views(result@) =~= Seq::<ListView>::empty());
        while i < sample_vec.len()
            invariant
                i <= sample_vec@.len(),
                result@.len() == i,
                parse_samples(views(sample_vec@).take(i as int)) == Ok::<_, ErrorView>(
                    sample_views(result@),
                ),
            decreases sample_vec@.len() - i,
        {
            let ghost before = views(sample_vec@).take(i as int);
            let ghost after = views(sample_vec@).take(i + 1);
            assert(after.drop_last() =~= before);
            assert(after.last() == sample_vec@[i as int]@);
            let ghost old_result = result@;
            match parse_list_column(sample_vec[i].as_str(), ':', "sample") {
                Ok(None) => result.push(SampleType::Missing),
                Ok(Some(es)) => result.push(SampleType::Entries(es)),
                Err(e) => {
                    proof {
                        lemma_samples_error_persists(views(sample_vec@), i + 1);
                    }
                    return Err(e);
                },
            }
            assert(sample_views(result@) =~= sample_views(old_result).push(result@[i as int]@));
            i += 1;
        }
        assert(views(sample_vec@).take(i as int) =~= views(sample_vec@));
        Ok(result)
    }

    pub fn to_string(&self) -> (r: String)
        ensures
            r@ == list_text(self@, ':'),
    {
        match self {
            SampleType::Missing => list_column_text(&None, ':'),
            SampleType::Entries(es) => join_strings(es, ':'),
        }
    }
}

proof fn lemma_samples_error_persists(parts: Seq<Seq<char>>, k: int)
    requires
        0 <= k <= parts.len(),
        parse_samples(parts.take(k)) is Err,
    ensures
        parse_samples(parts) == parse_samples(parts.take(k)),
    decreases parts.len() - k,
{
    if k == parts.len() {
        assert(parts.take(k) =~= parts);
    } else {
        assert(parts.take(k + 1).drop_last() =~= parts.take(k));
        lemma_samples_error_persists(parts, k + 1);
    }
}

/// A data line of the file.
#[derive(Debug, PartialEq)]
pub struct DataLine {
    /// An identifier from the reference genome or an angle-bracketed ID
    /// pointing to a contig in the assembly file.
    pub chromosome: String,
    /// The reference position, counted from 1.
    pub position: u64,
    /// Semicolon-separated identifiers, or missing.
    pub id: IdType,
    /// The reference bases.
    pub reference: String,
    /// Comma-separated alternate alleles, or missing.
    pub alternative: AltType,
    pub quality: QualType,
    pub filter: FilterType,
    pub info: InfoType,
    /// Present exactly when the header declares sample columns.
    pub format: Option<FormatType>,
    /// One value per sample column, in column order.
    pub samples: Vec<SampleType>,
}

/// The model of a data line.
pub struct DataLineView {
    pub chromosome: Seq<char>,
    pub position: u64,
    pub id: ListView,
    pub reference: Seq<char>,
    pub alternative: ListView,
    pub quality: QualType,
    pub filter: ListView,
    pub info: ListView,
    pub format: Option<ListView>,
    pub samples: Seq<ListView>,
}

impl View for DataLine {
    type V = DataLineView;

    open spec fn view(&self) -> DataLineView {
        DataLineView {
            chromosome: self.chromosome@,
            position: self.position,
            id: self.id@,
            reference: self.reference@,
            alternative: self.alternative@,
            quality: self.quality,
            filter: self.filter@,
            info: self.info@,
            format: match self.format {
                Some(f) => Some(f@),
                None => None,
            },
            samples: sample_views(self.samples@),
        }
    }
}

/// The number of columns of a data line when the header declares `n`
/// samples: the fixed ones, and FORMAT with one per sample if `n > 0`.
pub open spec fn expected_columns(n: nat) -> nat {
    if n > 0 {
        9 + n
    } else {
        8
    }
}

/// The fixed columns after the first two, read from `parts`.
pub open spec fn parse_fixed_rest(
    parts: Seq<Seq<char>>,
    position: u64,
    format: Option<ListView>,
    samples: Seq<ListView>,
) -> Result<DataLineView, ErrorView> {
    match parse_id(parts[2]) {
        Err(e) => Err(e),
        Ok(id) => match parse_list(parts[4], ',', "alt"@) {
            Err(e) => Err(e),
            Ok(alternative) => match parse_qual(parts[5]) {
                Err(e) => Err(e),
                Ok(quality) => match parse_filter(parts[6]) {
                    Err(e) => Err(e),
                    Ok(filter) => match parse_list(parts[7], ';', "info"@) {
                        Err(e) => Err(e),
                        Ok(info) => Ok(
                            DataLineView {
                                chromosome: parts[0],
                                position,
                                id,
                                reference: parts[3],
                                alternative,
                                quality,
                                filter,
                                info,
                                format,
                                samples,
                            },
                        ),
                    },
                },
            },
        },
    }
}

/// The data line read from `line` when the header declares `n` samples.
/// The FORMAT and sample columns are read first, then the fixed ones in order.
pub open spec fn parse_data_line(line: Seq<char>, n: nat) -> Result<DataLineView, ErrorView> {
    let parts = split(line, '\t');
    if parts.len() != expected_columns(n) {
        Err(
            (
                ErrorKind::ColumnCount {
                    expected: expected_columns(n) as usize,
                    found: parts.len() as usize,
                },
                Seq::empty(),
            ),
        )
    } else {
        let format = if n > 0 {
            match parse_list(parts[8], ':', "format"@) {
                Ok(f) => Ok(Some(f)),
                Err(e) => Err(e),
            }
        } else {
            Ok(None)
        };
        let samples = if n > 0 {
            parse_samples(parts.subrange(9, parts.len() as int))
        } else {
            Ok(Seq::empty())
        };
        match format {
            Err(e) => Err(e),
            Ok(format) => match samples {
                Err(e) => Err(e),
                Ok(samples) => match unsigned_of(parts[1], u64::MAX as nat) {
                    None => Err((ErrorKind::InvalidInteger, parts[1])),
                    Some(position) => parse_fixed_rest(parts, position as u64, format, samples),
                },
            },
        }
    }
}

pub open spec fn tab() -> Seq<char> {
    seq!['\t']
}

/// Each sample column, preceded by a tab.
pub open spec fn samples_text(ss: Seq<ListView>) -> Seq<char>
    decreases ss.len(),
{
    if ss.len() == 0 {
        Seq::empty()
    } else {
        samples_text(ss.drop_last()) + tab() + list_text(ss.last(), ':')
    }
}

/// The text of a data line: the fixed columns joined by tabs, then the
/// FORMAT and sample columns if FORMAT is present. No line break.
pub open spec fn data_line_text(d: DataLineView) -> Seq<char> {
    let fixed = d.chromosome + tab() + decimal(d.position as nat) + tab() + list_text(d.id, ';')
        + tab() + d.reference + tab() + list_text(d.alternative, ',') + tab() + qual_text(
        d.quality,
    ) + tab() + list_text(d.filter, ';') + tab() + list_text(d.info, ';');
    match d.format {
        None => fixed,
        Some(f) => fixed + tab() + list_text(f, ':') + samples_text(d.samples),
    }
}

/// The FORMAT keys of a data line; none without a FORMAT list.
pub open spec fn format_keys(d: DataLineView) -> Seq<Seq<char>> {
    match d.format {
        Some(ListView::Entries(es)) => es,
        _ => Seq::empty(),
    }
}

impl DataLine {
    /// Reads a data line, given the sample column names of the header.
    #[verifier::spinoff_prover]
    pub fn new(line_str: &str, column_names: &[String]) -> (r: Result<DataLine, VcfError>)
        requires
            column_names@.len() + 9 <= usize::MAX,
        ensures
            parse_data_line(line_str@, column_names@.len() as nat) == match r {
                Ok(d) => Ok::<_, ErrorView>(d@),
                Err(e) => Err(e@),
            },
            split(line_str@, '\t').len() != expected_columns(column_names@.len() as nat) ==> r
                is Err && r->Err_0.kind == (ErrorKind::ColumnCount {
                expected: expected_columns(column_names@.len() as nat) as usize,
                found: split(line_str@, '\t').len() as usize,
            }),
    {
        let v = chars_of(line_str);
        let parts = split_range(&v, 0, v.len(), '\t');
        assert(v@.subrange(0, v@.len() as int) =~= line_str@);
        let ghost ps = views(parts@);
        let n = column_names.len();
        let expected: usize = if n > 0 {
            FIXED_COLUMN_COUNT + n + 1
        } else {
            FIXED_COLUMN_COUNT
        };
        if parts.len() != expected {
            return Err(
                VcfError::new(
                    ErrorKind::ColumnCount { expected, found: parts.len() },
                    String::new(),
                ),
            );
        }
        let format = if n > 0 {
            Some(FormatType::from_str(parts[8].as_str())?)
        } else {
            None
        };
        let samples = if n > 0 {
            let mut tail: Vec<String> = Vec::new();
            let mut j: usize = 9;
            while j < parts.len()
                invariant
                    9 <= j <= parts@.len(),
                    ps == views(parts@),
                    views(tail@) == ps.subrange(9, j as int),
                decreases parts@.len() - j,
            {
                let ghost old_tail = tail@;
                let piece = parts[j].clone();
                tail.push(piece);
                assert(views(tail@) =~= views(old_tail).push(piece@));
                assert(piece@ == ps[j as int]);
                assert(views(tail@) =~= ps.subrange(9, j + 1));
                j += 1;
            }
            SampleType::new(tail.as_slice())?
        } else {
            Vec::new()
        };
        assert(n == 0 ==> sample_views(samples@) =~= Seq::<ListView>::empty());
        let chromosome = parts[0].clone();
        let pv = chars_of(parts[1].as_str());
        assert(pv@.subrange(0, pv@.len() as int) =~= ps[1]);
        let position = match parse_unsigned(&pv, 0, pv.len(), u64::MAX) {
            Some(p) => p,
            None => {
                return Err(VcfError::new(ErrorKind::InvalidInteger, parts[1].clone()));
            },
        };
        let id = IdType::from_str(parts[2].as_str())?;
        let reference = parts[3].clone();
        let alternative = AltType::from_str(parts[4].as_str())?;
        let quality = QualType::from_str(parts[5].as_str())?;
        let filter = FilterType::from_str(parts[6].as_str())?;
        let info = InfoType::from_str(parts[7].as_str())?;
        Ok(
            DataLine {
                chromosome,
                position,
                id,
                reference,
                alternative,
                quality,
                filter,
                info,
                format,
                samples,
            },
        )
    }

    /// The position of key `entry` among the FORMAT keys, if it is one.
    pub fn format_index(&self, entry: &str) -> (r: Option<usize>)
        ensures
            match r {
                Some(i) => i < format_keys(self@).len() && format_keys(self@)[i as int] == entry@
                    && forall|j: int| 0 <= j < i ==> format_keys(self@)[j] != entry@,
                None => !format_keys(self@).contains(entry@),
            },
    {
        match &self.format {
            Some(FormatType::Entries(entries)) => {
                let key = entry.to_owned();
                let mut i: usize = 0;
                while i < entries.len()
                    invariant
                        i <= entries@.len(),
                        key@ == entry@,
                        format_keys(self@) == views(entries@),
                        forall|j: int| 0 <= j < i ==> views(entries@)[j] != entry@,
                    decreases entries@.len() - i,
                {
                    if entries[i] == key {
                        return Some(i);
                    }
                    i += 1;
                }
                None
            },
            _ => None,
        }
    }

    /// The text of the line, columns separated by tabs, with no line break.
    #[verifier::spinoff_prover]
    pub fn to_string(&self) -> (r: String)
        ensures
            r@ == data_line_text(self@),
    {
        let mut r = self.chromosome.clone();
        r.push('\t');
        let t = decimal_string(self.position);
        r.append(t.as_str());
        r.push('\t');
        let t = self.id.to_string();
        r.append(t.as_str());
        r.push('\t');
        r.append(self.reference.as_str());
        r.push('\t');
        let t = self.alternative.to_string();
        r.append(t.as_str());
        r.push('\t');
        let t = self.quality.to_string();
        r.append(t.as_str());
        r.push('\t');
        let t = self.filter.to_string();
        r.append(t.as_str());
        r.push('\t');
        let t = self.info.to_string();
        r.append(t.as_str());
        let ghost fixed = r@;
        match &self.format {
            None => {},
            Some(f) => {
                r.push('\t');
                let t = f.to_string();
                r.append(t.as_str());
                let ghost head = r@;
                let mut i: usize = 0;
                while i < self.samples.len()
                    invariant
                        i <= self.samples@.len(),
                        r@ == head + samples_text(sample_views(self.samples@).take(i as int)),
                    decreases self.samples@.len() - i,
                {
                    let ghost before = sample_views(self.samples@).take(i as int);
                    let ghost after = sample_views(self.samples@).take(i + 1);
                    assert(after.drop_last() =~= before);
                    r.push('\t');
                    let t = self.samples[i].to_string();
                    r.append(t.as_str());
                    i += 1;
                    assert(r@ =~= head + samples_text(after));
                }
                assert(sample_views(self.samples@).take(i as int) =~= sample_views(self.samples@));
            },
        }
        assert(r@ =~= data_line_text(self@));
        r
    }
}

/// The FORMAT keys that a data line declares: none without samples or for
/// a `.` FORMAT column, else its colon-separated keys.
pub open spec fn declared_format_keys(line: Seq<char>, n: nat) -> Seq<Seq<char>> {
    let parts = split(line, '\t');
    if n > 0 && parts[8] != dot() {
        split(parts[8], ':')
    } else {
        Seq::empty()
    }
}

/// For a data line read with `n` declared samples, the keys that
/// `format_index` searches are exactly those of the line's FORMAT column:
/// it finds every key of that column, at a position holding that key, and
/// no key that the column does not hold.
pub proof fn lemma_format_index_of_parsed_line(line: Seq<char>, n: nat, d: DataLineView, key: Seq<char>)
    requires
        parse_data_line(line, n) == Ok::<_, ErrorView>(d),
    ensures
        format_keys(d) == declared_format_keys(line, n),
        declared_format_keys(line, n).contains(key) <==> format_keys(d).contains(key),
{
    let parts = split(line, '\t');
    if n > 0 {
        assert(parts[8].len() > 0);
    }
}

} // verus!

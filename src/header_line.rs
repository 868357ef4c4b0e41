//! Header lines: one variant per recognized kind, each read from the pairs
//! of its payload and written back in the `##TAG=<...>` or `##TAG=value`
//! shape, with a catch-all for unrecognized tags.
use crate::error::{ErrorKind, ErrorView, VcfError};
use crate::header::{
    alt_id_text, alt_id_views, alt_ids_of, format_type_of, format_type_text, get_map_value,
    info_type_of, info_type_text, number_of, number_text, pedigree_of, pedigree_text, required,
    str_is, AltId, AltIdView, FormatType, InfoType, Number, PedigreeType, PedigreeView,
};
use crate::ordered_map::{
    insert_entry, list_entries, list_map_entries, list_map_insert, list_pair_views, lookup,
    new_list_map, new_text_map, pair_views, text_entries, text_map_entries, text_map_get,
    text_map_insert, without_key,
};
use crate::payload::{parse_header_payload, payload_entries, OTHER_KEY};
use crate::text::{
    chars_of, join, join_strings, split, split_range, string_of, trim, trim_range, views,
};
use linked_hash_map::LinkedHashMap;
use vstd::prelude::*;

verus! {

/// A line of the header, other than the version and column lines.
#[derive(Debug, PartialEq)]
pub enum HeaderLine {
    /// `##ALT=<ID=type,Description=description>`
    Alt { id: Vec<AltId>, description: String },
    /// `##assembly=url`
    Assembly(String),
    /// `##contig=<ID=ctg1,length=81195210,species="Homo sapiens",...>`; the
    /// attributes other than ID and species are kept in order.
    Contig { id: String, species: Option<String>, other: LinkedHashMap<String, String> },
    /// `##fileDate=20100501`
    FileDate(String),
    /// `##FILTER=<ID=ID,Description="description">`
    Filter { id: String, description: String },
    /// `##FORMAT=<ID=ID,Number=number,Type=type,Description="description">`
    Format { id: String, number: Number, typ: FormatType, description: String },
    /// `##INFO=<ID=ID,Number=number,Type=type,Description="description",Source="source",Version="version">`
    Info {
        id: String,
        number: Number,
        typ: InfoType,
        description: String,
        source: Option<String>,
        version: Option<String>,
    },
    /// `##META=<ID=Assay,Type=String,Number=.,Values=[WholeGenome, Exome]>`
    Meta { id: String, typ: String, number: Number, values: Vec<String> },
    /// `##PEDIGREE=<ID=TumourSample,Original=GermlineID>` and the other relations.
    Pedigree { id: String, relation: PedigreeType },
    /// `##pedigreeDB=URL`
    PedigreeDB(String),
    /// Any other `##key=value` line.
    Other { key: String, value: String },
    /// `##SAMPLE=<ID=Sample1,Genomes=Germline;Tumor,Description="...",DOI=url>`;
    /// the attributes other than ID, Description and DOI are kept in order,
    /// their values split on `;`.
    Sample {
        id: String,
        meta: LinkedHashMap<String, Vec<String>>,
        description: String,
        doi: Option<String>,
    },
}

/// The model of a header line.
pub enum HeaderLineView {
    Alt { id: Seq<AltIdView>, description: Seq<char> },
    Assembly(Seq<char>),
    Contig { id: Seq<char>, species: Option<Seq<char>>, other: Seq<(Seq<char>, Seq<char>)> },
    FileDate(Seq<char>),
    Filter { id: Seq<char>, description: Seq<char> },
    Format { id: Seq<char>, number: Number, typ: FormatType, description: Seq<char> },
    Info {
        id: Seq<char>,
        number: Number,
        typ: InfoType,
        description: Seq<char>,
        source: Option<Seq<char>>,
        version: Option<Seq<char>>,
    },
    Meta { id: Seq<char>, typ: Seq<char>, number: Number, values: Seq<Seq<char>> },
    Pedigree { id: Seq<char>, relation: PedigreeView },
    PedigreeDB(Seq<char>),
    Other { key: Seq<char>, value: Seq<char> },
    Sample {
        id: Seq<char>,
        meta: Seq<(Seq<char>, Seq<Seq<char>>)>,
        description: Seq<char>,
        doi: Option<Seq<char>>,
    },
}

pub open spec fn opt_view(o: Option<String>) -> Option<Seq<char>> {
    match o {
        Some(s) => Some(s@),
        None => None,
    }
}

impl View for HeaderLine {
    type V = HeaderLineView;

    open spec fn view(&self) -> HeaderLineView {
        match self {
            HeaderLine::Alt { id, description } => HeaderLineView::Alt {
                id: alt_id_views(id@),
                description: description@,
            },
            HeaderLine::Assembly(s) => HeaderLineView::Assembly(s@),
            HeaderLine::Contig { id, species, other } => HeaderLineView::Contig {
                id: id@,
                species: opt_view(*species),
                other: text_entries(*other),
            },
            HeaderLine::FileDate(s) => HeaderLineView::FileDate(s@),
            HeaderLine::Filter { id, description } => HeaderLineView::Filter {
                id: id@,
                description: description@,
            },
            HeaderLine::Format { id, number, typ, description } => HeaderLineView::Format {
                id: id@,
                number: *number,
                typ: *typ,
                description: description@,
            },
            HeaderLine::Info { id, number, typ, description, source, version } => HeaderLineView::Info {
                id: id@,
                number: *number,
                typ: *typ,
                description: description@,
                source: opt_view(*source),
                version: opt_view(*version),
            },
            HeaderLine::Meta { id, typ, number, values } => HeaderLineView::Meta {
                id: id@,
                typ: typ@,
                number: *number,
                values: views(values@),
            },
            HeaderLine::Pedigree { id, relation } => HeaderLineView::Pedigree {
                id: id@,
                relation: relation@,
            },
            HeaderLine::PedigreeDB(s) => HeaderLineView::PedigreeDB(s@),
            HeaderLine::Other { key, value } => HeaderLineView::Other { key: key@, value: value@ },
            HeaderLine::Sample { id, meta, description, doi } => HeaderLineView::Sample {
                id: id@,
                meta: list_entries(*meta),
                description: description@,
                doi: opt_view(*doi),
            },
        }
    }
}

/// The map built by inserting the entries of `es` in order.
pub open spec fn reinsert<V>(es: Seq<(Seq<char>, V)>) -> Seq<(Seq<char>, V)>
    decreases es.len(),
{
    if es.len() == 0 {
        es
    } else {
        insert_entry(reinsert(es.drop_last()), es.last().0, es.last().1)
    }
}

/// Each value of `es` split on `;`.
pub open spec fn split_values(es: Seq<(Seq<char>, Seq<char>)>) -> Seq<(Seq<char>, Seq<Seq<char>>)> {
    es.map_values(|e: (Seq<char>, Seq<char>)| (e.0, split(e.1, ';')))
}

/// The contig attributes other than ID and species.
pub open spec fn contig_other(m: Seq<(Seq<char>, Seq<char>)>) -> Seq<(Seq<char>, Seq<char>)> {
    reinsert(without_key(without_key(m, "ID"@), "species"@))
}

/// The sample attributes other than ID, Description and DOI, split on `;`.
pub open spec fn sample_meta(m: Seq<(Seq<char>, Seq<char>)>) -> Seq<(Seq<char>, Seq<Seq<char>>)> {
    reinsert(split_values(without_key(without_key(without_key(m, "ID"@), "Description"@), "DOI"@)))
}

/// The META values: split on `,`, each trimmed of white space.
pub open spec fn meta_values(v: Seq<char>) -> Seq<Seq<char>> {
    split(v, ',').map_values(|x: Seq<char>| trim(x))
}

/// An ALT line from its payload pairs.
pub open spec fn alt_line_of(m: Seq<(Seq<char>, Seq<char>)>) -> Result<HeaderLineView, ErrorView> {
    match required(m, "ID"@) {
        Err(e) => Err(e),
        Ok(id) => match alt_ids_of(id) {
            Err(e) => Err(e),
            Ok(ids) => match required(m, "Description"@) {
                Err(e) => Err(e),
                Ok(d) => Ok(HeaderLineView::Alt { id: ids, description: d }),
            },
        },
    }
}

/// A contig line from its payload pairs.
pub open spec fn contig_line_of(m: Seq<(Seq<char>, Seq<char>)>) -> Result<HeaderLineView, ErrorView> {
    match required(m, "ID"@) {
        Err(e) => Err(e),
        Ok(id) => Ok(
            HeaderLineView::Contig { id, species: lookup(m, "species"@), other: contig_other(m) },
        ),
    }
}

/// A FILTER line from its payload pairs.
pub open spec fn filter_line_of(m: Seq<(Seq<char>, Seq<char>)>) -> Result<HeaderLineView, ErrorView> {
    match required(m, "ID"@) {
        Err(e) => Err(e),
        Ok(id) => match required(m, "Description"@) {
            Err(e) => Err(e),
            Ok(d) => Ok(HeaderLineView::Filter { id, description: d }),
        },
    }
}

/// A FORMAT line from its payload pairs.
pub open spec fn format_line_of(m: Seq<(Seq<char>, Seq<char>)>) -> Result<HeaderLineView, ErrorView> {
    match required(m, "ID"@) {
        Err(e) => Err(e),
        Ok(id) => match number_of(lookup(m, "Number"@)) {
            Err(e) => Err(e),
            Ok(number) => match format_type_of(lookup(m, "Type"@)) {
                Err(e) => Err(e),
                Ok(typ) => match required(m, "Description"@) {
                    Err(e) => Err(e),
                    Ok(d) => Ok(HeaderLineView::Format { id, number, typ, description: d }),
                },
            },
        },
    }
}

/// An INFO line from its payload pairs.
pub open spec fn info_line_of(m: Seq<(Seq<char>, Seq<char>)>) -> Result<HeaderLineView, ErrorView> {
    match required(m, "ID"@) {
        Err(e) => Err(e),
        Ok(id) => match number_of(lookup(m, "Number"@)) {
            Err(e) => Err(e),
            Ok(number) => match info_type_of(lookup(m, "Type"@)) {
                Err(e) => Err(e),
                Ok(typ) => match required(m, "Description"@) {
                    Err(e) => Err(e),
                    Ok(d) => Ok(
                        HeaderLineView::Info {
                            id,
                            number,
                            typ,
                            description: d,
                            source: lookup(m, "Source"@),
                            version: lookup(m, "Version"@),
                        },
                    ),
                },
            },
        },
    }
}

/// A META line from its payload pairs.
pub open spec fn meta_line_of(m: Seq<(Seq<char>, Seq<char>)>) -> Result<HeaderLineView, ErrorView> {
    match required(m, "ID"@) {
        Err(e) => Err(e),
        Ok(id) => match required(m, "Type"@) {
            Err(e) => Err(e),
            Ok(typ) => match number_of(lookup(m, "Number"@)) {
                Err(e) => Err(e),
                Ok(number) => match required(m, "Values"@) {
                    Err(e) => Err(e),
                    Ok(vs) => Ok(HeaderLineView::Meta { id, typ, number, values: meta_values(vs) }),
                },
            },
        },
    }
}

/// A PEDIGREE line from its payload pairs.
pub open spec fn pedigree_line_of(m: Seq<(Seq<char>, Seq<char>)>) -> Result<HeaderLineView, ErrorView> {
    match required(m, "ID"@) {
        Err(e) => Err(e),
        Ok(id) => match pedigree_of(m) {
            Err(e) => Err(e),
            Ok(relation) => Ok(HeaderLineView::Pedigree { id, relation }),
        },
    }
}

/// A SAMPLE line from its payload pairs.
pub open spec fn sample_line_of(m: Seq<(Seq<char>, Seq<char>)>) -> Result<HeaderLineView, ErrorView> {
    match required(m, "ID"@) {
        Err(e) => Err(e),
        Ok(id) => match required(m, "Description"@) {
            Err(e) => Err(e),
            Ok(d) => Ok(
                HeaderLineView::Sample {
                    id,
                    meta: sample_meta(m),
                    description: d,
                    doi: lookup(m, "DOI"@),
                },
            ),
        },
    }
}

/// The header line of kind `tag` read from the pairs `m` of its payload;
/// an unrecognized tag gives `Other`.
pub open spec fn line_from_entries(tag: Seq<char>, m: Seq<(Seq<char>, Seq<char>)>) -> Result<
    HeaderLineView,
    ErrorView,
> {
    if tag == "ALT"@ {
        alt_line_of(m)
    } else if tag == "assembly"@ {
        match required(m, OTHER_KEY@) {
            Err(e) => Err(e),
            Ok(v) => Ok(HeaderLineView::Assembly(v)),
        }
    } else if tag == "contig"@ {
        contig_line_of(m)
    } else if tag == "fileDate"@ {
        match required(m, OTHER_KEY@) {
            Err(e) => Err(e),
            Ok(v) => Ok(HeaderLineView::FileDate(v)),
        }
    } else if tag == "FILTER"@ {
        filter_line_of(m)
    } else if tag == "FORMAT"@ {
        format_line_of(m)
    } else if tag == "INFO"@ {
        info_line_of(m)
    } else if tag == "META"@ {
        meta_line_of(m)
    } else if tag == "PEDIGREE"@ {
        pedigree_line_of(m)
    } else if tag == "pedigreeDB"@ {
        match required(m, OTHER_KEY@) {
            Err(e) => Err(e),
            Ok(v) => Ok(HeaderLineView::PedigreeDB(v)),
        }
    } else if tag == "SAMPLE"@ {
        sample_line_of(m)
    } else {
        match required(m, OTHER_KEY@) {
            Err(e) => Err(e),
            Ok(v) => Ok(HeaderLineView::Other { key: tag, value: v }),
        }
    }
}

/// The position of the first `c` in `s`, if any.
pub open spec fn first_index(s: Seq<char>, c: char) -> Option<nat>
    decreases s.len(),
{
    if s.len() == 0 {
        None
    } else if s[0] == c {
        Some(0)
    } else {
        match first_index(s.drop_first(), c) {
            Some(i) => Some(i + 1),
            None => None,
        }
    }
}

/// `k` is the first position of `c` in `s` exactly when it holds `c` and
/// no earlier position does.
pub proof fn lemma_first_index(s: Seq<char>, c: char, k: int)
    requires
        0 <= k <= s.len(),
        forall|j: int| 0 <= j < k ==> s[j] != c,
    ensures
        k < s.len() && s[k] == c ==> first_index(s, c) == Some(k as nat),
        k == s.len() ==> first_index(s, c) is None,
    decreases k,
{
    if k > 0 {
        let t = s.drop_first();
        assert forall|j: int| 0 <= j < k - 1 implies t[j] != c by {
            assert(t[j] == s[j + 1]);
        }
        lemma_first_index(t, c, k - 1);
        if k < s.len() {
            assert(t[k - 1] == s[k]);
        }
    }
}

/// The header line read from `line`: `##`, the tag up to the first `=`,
/// then the payload.
pub open spec fn header_line_of(line: Seq<char>) -> Result<HeaderLineView, ErrorView> {
    match first_index(line, '=') {
        None => Err((ErrorKind::MissingEquals, line)),
        Some(k) => if !(k >= 2 && line[0] == '#' && line[1] == '#') {
            Err((ErrorKind::MissingHashes, line.take(k as int)))
        } else {
            match payload_entries(line.skip(k + 1 as int)) {
                Err(e) => Err(e),
                Ok(m) => line_from_entries(line.subrange(2, k as int), m),
            }
        },
    }
}

/// `a`, the value and `b` if there is a value; nothing otherwise.
pub open spec fn opt_text(a: Seq<char>, o: Option<Seq<char>>, b: Seq<char>) -> Seq<char> {
    match o {
        Some(s) => a + s + b,
        None => Seq::empty(),
    }
}

/// Each pair written as `,key=value`.
pub open spec fn pairs_text(es: Seq<(Seq<char>, Seq<char>)>) -> Seq<char>
    decreases es.len(),
{
    if es.len() == 0 {
        Seq::empty()
    } else {
        pairs_text(es.drop_last()) + ","@ + es.last().0 + "="@ + es.last().1
    }
}

/// Each pair written as `,key=v1;v2;...`.
pub open spec fn list_pairs_text(es: Seq<(Seq<char>, Seq<Seq<char>>)>) -> Seq<char>
    decreases es.len(),
{
    if es.len() == 0 {
        Seq::empty()
    } else {
        list_pairs_text(es.drop_last()) + ","@ + es.last().0 + "="@ + join(es.last().1, ';')
    }
}

/// The texts of ALT tags.
pub open spec fn alt_texts(ids: Seq<AltIdView>) -> Seq<Seq<char>> {
    ids.map_values(|a: AltIdView| alt_id_text(a))
}

/// The tags of an ALT line joined by `:`.
pub open spec fn alt_ids_text(ids: Seq<AltIdView>) -> Seq<char> {
    join(alt_texts(ids), ':')
}

/// The text of a header line. The META `Values` clause is written only for
/// an empty list of values, so a META line read from text (which always has
/// values) is written without it. IDs, contig and sample attribute values
/// and the DOI are written bare, and descriptions, species, sources and
/// versions between quotes, as they are: a value that was read from quotes
/// and holds `,` or `"`, or a description ending in a lone backslash, does
/// not read back (see `writes_back`).
pub open spec fn header_line_text(h: HeaderLineView) -> Seq<char> {
    match h {
        HeaderLineView::Alt { id, description } => "##ALT=<ID="@ + alt_ids_text(id)
            + ",Description=\""@ + description + "\">"@,
        HeaderLineView::Assembly(s) => "##assembly="@ + s,
        HeaderLineView::Contig { id, species, other } => "##contig=<ID="@ + id + opt_text(
            ",species=\""@,
            species,
            "\""@,
        ) + pairs_text(other) + ">"@,
        HeaderLineView::FileDate(s) => "##fileDate="@ + s,
        HeaderLineView::Filter { id, description } => "##FILTER=<ID="@ + id + ",Description=\""@
            + description + "\">"@,
        HeaderLineView::Format { id, number, typ, description } => "##FORMAT=<ID="@ + id
            + ",Number="@ + number_text(number) + ",Type="@ + format_type_text(typ)
            + ",Description=\""@ + description + "\">"@,
        HeaderLineView::Info { id, number, typ, description, source, version } => "##INFO=<ID="@
            + id + ",Number="@ + number_text(number) + ",Type="@ + info_type_text(typ)
            + ",Description=\""@ + description + "\""@ + opt_text(",Source=\""@, source, "\""@)
            + opt_text(",Version=\""@, version, "\""@) + ">"@,
        HeaderLineView::Meta { id, typ, number, values } => "##META=<ID="@ + id + ",Type="@ + typ
            + ",Number="@ + number_text(number) + (if values.len() == 0 {
            ",Values=["@ + join(values, ',') + "]"@
        } else {
            Seq::empty()
        }) + ">"@,
        HeaderLineView::Pedigree { id, relation } => "##PEDIGREE=<ID="@ + id + ","@ + pedigree_text(
            relation,
        ) + ">"@,
        HeaderLineView::PedigreeDB(s) => "##pedigreeDB="@ + s,
        HeaderLineView::Other { key, value } => "##"@ + key + "="@ + value,
        HeaderLineView::Sample { id, meta, description, doi } => "##SAMPLE=<ID="@ + id
            + list_pairs_text(meta) + ",Description=\""@ + description + "\""@ + opt_text(
            ",DOI="@,
            doi,
            ""@,
        ) + ">"@,
    }
}

fn opt_str(o: &Option<String>) -> (r: Option<&str>)
    ensures
        match r {
            Some(s) => *o matches Some(t) && s@ == t@,
            None => o is None,
        },
{
    match o {
        Some(s) => Some(s.as_str()),
        None => None,
    }
}

/// The contig attributes of payload map `m` other than ID and species.
#[verifier::spinoff_prover]
fn contig_other_map(m: &LinkedHashMap<String, String>) -> (r: LinkedHashMap<String, String>)
    ensures
        text_entries(r) == contig_other(text_entries(*m)),
{
    let es = text_map_entries(m);
    let ghost pv = pair_views(es@);
    let mut other = new_text_map();
    let mut i: usize = 0;
    assert(pv.take(0) =~= Seq::<(Seq<char>, Seq<char>)>::empty());
    while i < es.len()
        invariant
            i <= es@.len(),
            pv == pair_views(es@),
            text_entries(other) == contig_other(pv.take(i as int)),
        decreases es@.len() - i,
    {
        let ghost t0 = pv.take(i as int);
        let ghost t1 = pv.take(i + 1);
        assert(t1.drop_last() =~= t0);
        assert(t1.last() == pv[i as int]);
        let ghost w0 = without_key(t0, "ID"@);
        let ghost w1 = without_key(t1, "ID"@);
        if !str_is(es[i].0.as_str(), "ID") && !str_is(es[i].0.as_str(), "species") {
            assert(w1 == w0.push(pv[i as int]));
            assert(w1.drop_last() =~= w0);
            text_map_insert(&mut other, es[i].0.clone(), es[i].1.clone());
            let ghost x1 = without_key(w1, "species"@);
            assert(x1 == without_key(w0, "species"@).push(pv[i as int]));
            assert(x1.drop_last() =~= without_key(w0, "species"@));
        } else if str_is(es[i].0.as_str(), "ID") {
            assert(w1 == w0);
        } else {
            assert(w1 == w0.push(pv[i as int]));
            assert(w1.drop_last() =~= w0);
        }
        i += 1;
    }
    assert(pv.take(i as int) =~= pv);
    other
}

/// The sample attributes of payload map `m` other than ID, Description and
/// DOI, with their values split on `;`.
#[verifier::spinoff_prover]
fn sample_meta_map(m: &LinkedHashMap<String, String>) -> (r: LinkedHashMap<String, Vec<String>>)
    ensures
        list_entries(r) == sample_meta(text_entries(*m)),
{
    let es = text_map_entries(m);
    let ghost pv = pair_views(es@);
    let mut meta = new_list_map();
    let mut i: usize = 0;
    assert(pv.take(0) =~= Seq::<(Seq<char>, Seq<char>)>::empty());
    assert(split_values(Seq::<(Seq<char>, Seq<char>)>::empty()) =~= Seq::<(Seq<char>, Seq<Seq<char>>)>::empty());
    while i < es.len()
        invariant
            i <= es@.len(),
            pv == pair_views(es@),
            list_entries(meta) == sample_meta(pv.take(i as int)),
        decreases es@.len() - i,
    {
        let ghost t0 = pv.take(i as int);
        let ghost t1 = pv.take(i + 1);
        let ghost e = pv[i as int];
        assert(t1.drop_last() =~= t0);
        assert(t1.last() == e);
        let ghost w0 = without_key(t0, "ID"@);
        let ghost w1 = without_key(t1, "ID"@);
        let ghost x0 = without_key(w0, "Description"@);
        let ghost x1 = without_key(w1, "Description"@);
        let ghost y0 = without_key(x0, "DOI"@);
        let ghost y1 = without_key(x1, "DOI"@);
        let is_id = str_is(es[i].0.as_str(), "ID");
        let is_desc = str_is(es[i].0.as_str(), "Description");
        let is_doi = str_is(es[i].0.as_str(), "DOI");
        if !is_id {
            assert(w1 == w0.push(e));
            assert(w1.drop_last() =~= w0);
            if !is_desc {
                assert(x1 == x0.push(e));
                assert(x1.drop_last() =~= x0);
                if !is_doi {
                    assert(y1 == y0.push(e));
                    assert(split_values(y1) =~= split_values(y0).push((e.0, split(e.1, ';'))));
                    assert(split_values(y1).drop_last() =~= split_values(y0));
                } else {
                    assert(y1 == y0);
                }
            } else {
                assert(x1 == x0);
            }
        } else {
            assert(w1 == w0);
        }
        if !is_id && !is_desc && !is_doi {
            let v = chars_of(es[i].1.as_str());
            let parts = split_range(&v, 0, v.len(), ';');
            assert(v@.subrange(0, v@.len() as int) =~= v@);
            list_map_insert(&mut meta, es[i].0.clone(), parts);
        }
        i += 1;
    }
    assert(pv.take(i as int) =~= pv);
    meta
}

/// The META values of `v`: split on `,`, each trimmed.
fn meta_values_exec(v: &String) -> (r: Vec<String>)
    ensures
        views(r@) == meta_values(v@),
{
    let cs = chars_of(v.as_str());
    let pieces = split_range(&cs, 0, cs.len(), ',');
    assert(cs@.subrange(0, cs@.len() as int) =~= v@);
    let ghost ps = views(pieces@);
    let mut r: Vec<String> = Vec::new();
    let mut i: usize = 0;
    while i < pieces.len()
        invariant
            i <= pieces@.len(),
            ps == views(pieces@),
            views(r@) == ps.take(i as int).map_values(|x: Seq<char>| trim(x)),
        decreases pieces@.len() - i,
    {
        let pc = chars_of(pieces[i].as_str());
        let (a, b) = trim_range(&pc, 0, pc.len());
        assert(pc@.subrange(0, pc@.len() as int) =~= ps[i as int]);
        let t = string_of(&pc, a, b);
        let ghost old_r = views(r@);
        r.push(t);
        assert(views(r@) =~= old_r.push(t@));
        assert(ps.take(i + 1).map_values(|x: Seq<char>| trim(x)) =~= ps.take(i as int).map_values(
            |x: Seq<char>| trim(x),
        ).push(trim(ps[i as int])));
        i += 1;
    }
    assert(ps.take(i as int) =~= ps);
    r
}

/// The header line of kind `tag` read from payload map `m`.
#[verifier::spinoff_prover]
fn line_from_map(tag: &str, m: &LinkedHashMap<String, String>) -> (r: Result<HeaderLine, VcfError>)
    ensures
        line_from_entries(tag@, text_entries(*m)) == match r {
            Ok(h) => Ok::<_, ErrorView>(h@),
            Err(e) => Err(e@),
        },
{
    if str_is(tag, "ALT") {
        let id = get_map_value(m, "ID")?;
        let ids = AltId::new_alt_ids(id.as_str())?;
        let description = get_map_value(m, "Description")?;
        Ok(HeaderLine::Alt { id: ids, description })
    } else if str_is(tag, "assembly") {
        Ok(HeaderLine::Assembly(get_map_value(m, OTHER_KEY)?))
    } else if str_is(tag, "contig") {
        let id = get_map_value(m, "ID")?;
        let species = text_map_get(m, "species");
        let other = contig_other_map(m);
        Ok(HeaderLine::Contig { id, species, other })
    } else if str_is(tag, "fileDate") {
        Ok(HeaderLine::FileDate(get_map_value(m, OTHER_KEY)?))
    } else if str_is(tag, "FILTER") {
        let id = get_map_value(m, "ID")?;
        let description = get_map_value(m, "Description")?;
        Ok(HeaderLine::Filter { id, description })
    } else if str_is(tag, "FORMAT") {
        let id = get_map_value(m, "ID")?;
        let n = text_map_get(m, "Number");
        let number = Number::new(opt_str(&n))?;
        let t = text_map_get(m, "Type");
        let typ = FormatType::new(opt_str(&t))?;
        let description = get_map_value(m, "Description")?;
        Ok(HeaderLine::Format { id, number, typ, description })
    } else if str_is(tag, "INFO") {
        let id = get_map_value(m, "ID")?;
        let n = text_map_get(m, "Number");
        let number = Number::new(opt_str(&n))?;
        let t = text_map_get(m, "Type");
        let typ = InfoType::new(opt_str(&t))?;
        let description = get_map_value(m, "Description")?;
        let source = text_map_get(m, "Source");
        let version = text_map_get(m, "Version");
        Ok(HeaderLine::Info { id, number, typ, description, source, version })
    } else if str_is(tag, "META") {
        let id = get_map_value(m, "ID")?;
        let typ = get_map_value(m, "Type")?;
        let n = text_map_get(m, "Number");
        let number = Number::new(opt_str(&n))?;
        let vs = get_map_value(m, "Values")?;
        let values = meta_values_exec(&vs);
        Ok(HeaderLine::Meta { id, typ, number, values })
    } else if str_is(tag, "PEDIGREE") {
        let id = get_map_value(m, "ID")?;
        let relation = PedigreeType::new(m)?;
        Ok(HeaderLine::Pedigree { id, relation })
    } else if str_is(tag, "pedigreeDB") {
        Ok(HeaderLine::PedigreeDB(get_map_value(m, OTHER_KEY)?))
    } else if str_is(tag, "SAMPLE") {
        let id = get_map_value(m, "ID")?;
        let description = get_map_value(m, "Description")?;
        let doi = text_map_get(m, "DOI");
        let meta = sample_meta_map(m);
        Ok(HeaderLine::Sample { id, meta, description, doi })
    } else {
        let value = get_map_value(m, OTHER_KEY)?;
        Ok(HeaderLine::Other { key: tag.to_owned(), value })
    }
}

/// Appends `a`, the value and `b` if there is a value.
fn push_opt(r: &mut String, a: &str, o: &Option<String>, b: &str)
    ensures
        final(r)@ == old(r)@ + opt_text(a@, opt_view(*o), b@),
{
    match o {
        Some(s) => {
            r.append(a);
            r.append(s.as_str());
            r.append(b);
            assert(final(r)@ =~= old(r)@ + opt_text(a@, opt_view(*o), b@));
        },
        None => {
            assert(old(r)@ + opt_text(a@, opt_view(*o), b@) =~= old(r)@);
        },
    }
}

impl HeaderLine {
    /// Reads a header line: `##`, its tag up to the first `=`, then its
    /// payload. An unrecognized tag gives `Other`.
    #[verifier::spinoff_prover]
    pub fn from_str(header_line_str: &str) -> (r: Result<HeaderLine, VcfError>)
        ensures
            header_line_of(header_line_str@) == match r {
                Ok(h) => Ok::<_, ErrorView>(h@),
                Err(e) => Err(e@),
            },
    {
        let v = chars_of(header_line_str);
        let mut k: usize = 0;
        while k < v.len() && v[k] != '='
            invariant
                k <= v@.len(),
                forall|j: int| 0 <= j < k ==> v@[j] != '=',
            decreases v@.len() - k,
        {
            k += 1;
        }
        proof {
            lemma_first_index(v@, '=', k as int);
        }
        if k == v.len() {
            return Err(VcfError::new(ErrorKind::MissingEquals, header_line_str.to_owned()));
        }
        if !(k >= 2 && v[0] == '#' && v[1] == '#') {
            let t = string_of(&v, 0, k);
            assert(v@.subrange(0, k as int) =~= v@.take(k as int));
            return Err(VcfError::new(ErrorKind::MissingHashes, t));
        }
        let tag = string_of(&v, 2, k);
        let payload = string_of(&v, k + 1, v.len());
        assert(v@.subrange(k + 1, v@.len() as int) =~= v@.skip(k + 1));
        let m = parse_header_payload(payload.as_str())?;
        line_from_map(tag.as_str(), &m)
    }

    /// The text of the line, as `header_line_text` gives it.
    #[verifier::spinoff_prover]
    pub fn to_string(&self) -> (r: String)
        ensures
            r@ == header_line_text(self@),
    {
        let mut r = String::new();
        match self {
            HeaderLine::Alt { id, description } => {
                r.append("##ALT=<ID=");
                let mut texts: Vec<String> = Vec::new();
                let mut i: usize = 0;
                while i < id.len()
                    invariant
                        i <= id@.len(),
                        views(texts@) == alt_id_views(id@).take(i as int).map_values(
                            |a: AltIdView| alt_id_text(a),
                        ),
                    decreases id@.len() - i,
                {
                    let t = id[i].to_string();
                    let ghost old_t = views(texts@);
                    texts.push(t);
                    assert(views(texts@) =~= old_t.push(t@));
                    assert(alt_id_views(id@).take(i + 1).map_values(|a: AltIdView| alt_id_text(a))
                        =~= alt_id_views(id@).take(i as int).map_values(
                        |a: AltIdView| alt_id_text(a),
                    ).push(alt_id_text(id@[i as int]@)));
                    i += 1;
                }
                assert(alt_id_views(id@).take(i as int) =~= alt_id_views(id@));
                let j = join_strings(&texts, ':');
                r.append(j.as_str());
                r.append(",Description=\"");
                r.append(description.as_str());
                r.append("\">");
            },
            HeaderLine::Assembly(s) => {
                r.append("##assembly=");
                r.append(s.as_str());
            },
            HeaderLine::Contig { id, species, other } => {
                r.append("##contig=<ID=");
                r.append(id.as_str());
                push_opt(&mut r, ",species=\"", species, "\"");
                let es = text_map_entries(other);
                let ghost head = r@;
                let ghost pv = pair_views(es@);
                let mut i: usize = 0;
                assert(pv.take(0) =~= Seq::<(Seq<char>, Seq<char>)>::empty());
                while i < es.len()
                    invariant
                        i <= es@.len(),
                        pv == pair_views(es@),
                        r@ == head + pairs_text(pv.take(i as int)),
                    decreases es@.len() - i,
                {
                    assert(pv.take(i + 1).drop_last() =~= pv.take(i as int));
                    r.append(",");
                    r.append(es[i].0.as_str());
                    r.append("=");
                    r.append(es[i].1.as_str());
                    i += 1;
                    assert(r@ =~= head + pairs_text(pv.take(i as int)));
                }
                assert(pv.take(i as int) =~= pv);
                r.append(">");
            },
            HeaderLine::FileDate(s) => {
                r.append("##fileDate=");
                r.append(s.as_str());
            },
            HeaderLine::Filter { id, description } => {
                r.append("##FILTER=<ID=");
                r.append(id.as_str());
                r.append(",Description=\"");
                r.append(description.as_str());
                r.append("\">");
            },
            HeaderLine::Format { id, number, typ, description } => {
                r.append("##FORMAT=<ID=");
                r.append(id.as_str());
                r.append(",Number=");
                let t = number.to_string();
                r.append(t.as_str());
                r.append(",Type=");
                let t = typ.to_string();
                r.append(t.as_str());
                r.append(",Description=\"");
                r.append(description.as_str());
                r.append("\">");
            },
            HeaderLine::Info { id, number, typ, description, source, version } => {
                r.append("##INFO=<ID=");
                r.append(id.as_str());
                r.append(",Number=");
                let t = number.to_string();
                r.append(t.as_str());
                r.append(",Type=");
                let t = typ.to_string();
                r.append(t.as_str());
                r.append(",Description=\"");
                r.append(description.as_str());
                r.append("\"");
                push_opt(&mut r, ",Source=\"", source, "\"");
                push_opt(&mut r, ",Version=\"", version, "\"");
                r.append(">");
            },
            HeaderLine::Meta { id, typ, number, values } => {
                r.append("##META=<ID=");
                r.append(id.as_str());
                r.append(",Type=");
                r.append(typ.as_str());
                r.append(",Number=");
                let t = number.to_string();
                r.append(t.as_str());
                if values.len() == 0 {
                    r.append(",Values=[");
                    let j = join_strings(values, ',');
                    r.append(j.as_str());
                    r.append("]");
                }
                r.append(">");
            },
            HeaderLine::Pedigree { id, relation } => {
                r.append("##PEDIGREE=<ID=");
                r.append(id.as_str());
                r.append(",");
                let t = relation.to_string();
                r.append(t.as_str());
                r.append(">");
            },
            HeaderLine::PedigreeDB(s) => {
                r.append("##pedigreeDB=");
                r.append(s.as_str());
            },
            HeaderLine::Other { key, value } => {
                r.append("##");
                r.append(key.as_str());
                r.append("=");
                r.append(value.as_str());
            },
            HeaderLine::Sample { id, meta, description, doi } => {
                r.append("##SAMPLE=<ID=");
                r.append(id.as_str());
                let es = list_map_entries(meta);
                let ghost head = r@;
                let ghost pv = list_pair_views(es@);
                let mut i: usize = 0;
                assert(pv.take(0) =~= Seq::<(Seq<char>, Seq<Seq<char>>)>::empty());
                while i < es.len()
                    invariant
                        i <= es@.len(),
                        pv == list_pair_views(es@),
                        r@ == head + list_pairs_text(pv.take(i as int)),
                    decreases es@.len() - i,
                {
                    assert(pv.take(i + 1).drop_last() =~= pv.take(i as int));
                    r.append(",");
                    r.append(es[i].0.as_str());
                    r.append("=");
                    let j = join_strings(&es[i].1, ';');
                    r.append(j.as_str());
                    i += 1;
                    assert(r@ =~= head + list_pairs_text(pv.take(i as int)));
                }
                assert(pv.take(i as int) =~= pv);
                r.append(",Description=\"");
                r.append(description.as_str());
                r.append("\"");
                push_opt(&mut r, ",DOI=", doi, "");
                r.append(">");
            },
        }
        assert(r@ =~= header_line_text(self@));
        r
    }
}

} // verus!

//! The round trip of header lines: a line read from text, written back
//! and read again is the same line, for every kind whose text the reader
//! accepts back, when its values can be written as the format asks.
use crate::body::dot;
use crate::error::ErrorView;
use crate::header::{
    alt_id_of, alt_id_text, alt_ids_of_pieces, format_type_of, format_type_text, info_type_of,
    info_type_text, number_of, number_text, AltIdView, FormatType, InfoType, Number, PedigreeView,
};
use crate::header_line::{
    alt_ids_text, alt_line_of, alt_texts, contig_line_of, filter_line_of, first_index,
    format_line_of, header_line_of, header_line_text, info_line_of, lemma_first_index,
    line_from_entries, list_pairs_text, opt_text, pairs_text, pedigree_line_of, reinsert,
    sample_line_of, split_values, HeaderLineView,
};
use crate::ordered_map::{lookup, without_key};
use crate::payload::{
    entries_of, field_text, fields_text, lemma_tokenize_fields, lemma_tokenize_whole,
    payload_entries, writable_field, writable_key, writable_value, Enclosure, Field, OTHER_KEY,
};
use crate::text::{decimal, is_digit, join, lemma_decimal_round_trip, lemma_split_join};
use vstd::prelude::*;

verus! {

/// A header line `##tag=payload` whose tag holds no `=` is read as the
/// line of kind `tag` from the pairs of the payload.
proof fn lemma_header_split(tag: Seq<char>, payload: Seq<char>)
    requires
        forall|i: int| 0 <= i < tag.len() ==> #[trigger] tag[i] != '=',
    ensures
        header_line_of(seq!['#', '#'] + tag + seq!['='] + payload) == match payload_entries(
            payload,
        ) {
            Err(e) => Err(e),
            Ok(m) => line_from_entries(tag, m),
        },
{
    let line = seq!['#', '#'] + tag + seq!['='] + payload;
    let k: int = tag.len() as int + 2;
    assert forall|j: int| 0 <= j < k implies line[j] != '=' by {
        if j >= 2 {
            assert(line[j] == tag[j - 2]);
        }
    }
    assert(line[k] == '=');
    lemma_first_index(line, '=', k);
    assert(line.subrange(2, k) =~= tag);
    assert(line.skip(k + 1) =~= payload);
}

/// Whether `v` can be written as a bare value.
pub open spec fn bare_ok(v: Seq<char>) -> bool {
    writable_value(v, Enclosure::Bare)
}

/// Whether `v` can be written between quotes.
pub open spec fn quoted_ok(v: Seq<char>) -> bool {
    writable_value(v, Enclosure::Quoted)
}

/// Whether `v` can be written as a whole payload: not empty, with no `=`,
/// not starting with `<` nor ending with `>`.
pub open spec fn whole_ok(v: Seq<char>) -> bool {
    v.len() > 0 && !v.contains('=') && v[0] != '<' && v.last() != '>'
}

pub open spec fn opt_quoted_ok(o: Option<Seq<char>>) -> bool {
    match o {
        Some(v) => quoted_ok(v),
        None => true,
    }
}

/// The header lines that are shown to read back as themselves after being
/// written, when their values can be written as the format asks: lines
/// whose payload is one whole value, and every kind but META and ancestors
/// PEDIGREE lines. The attributes of a contig or sample line must have
/// distinct writable keys other than the kind's own, and the pieces of an
/// ALT ID or of a sample attribute no separator, as those of every line
/// read from text do.
pub open spec fn writes_back(h: HeaderLineView) -> bool {
    match h {
        HeaderLineView::Assembly(s) => whole_ok(s),
        HeaderLineView::FileDate(s) => whole_ok(s),
        HeaderLineView::PedigreeDB(s) => whole_ok(s),
        HeaderLineView::Other { key, value } => whole_ok(value),
        HeaderLineView::Filter { id, description } => bare_ok(id) && quoted_ok(description),
        HeaderLineView::Format { id, number, typ, description } => bare_ok(id) && quoted_ok(
            description,
        ),
        HeaderLineView::Info { id, number, typ, description, source, version } => bare_ok(id)
            && quoted_ok(description) && opt_quoted_ok(source) && opt_quoted_ok(version),
        HeaderLineView::Contig { id, species, other } => bare_ok(id) && opt_quoted_ok(species)
            && attributes_ok(other, seq!["ID"@, "species"@]) && forall|i: int|
            0 <= i < other.len() ==> bare_ok((#[trigger] other[i]).1),
        HeaderLineView::Sample { id, meta, description, doi } => sample_ok(id, meta, description, doi),
        HeaderLineView::Alt { id, description } => alt_ok(id) && quoted_ok(description),
        HeaderLineView::Pedigree { id, relation } => bare_ok(id) && match relation {
            PedigreeView::Original(s) => bare_ok(s),
            PedigreeView::Parents(f, m) => bare_ok(f) && bare_ok(m),
            PedigreeView::Ancestors(_) => false,
        },
        _ => false,
    }
}

pub open spec fn bare(k: Seq<char>, v: Seq<char>) -> Field {
    Field { key: k, value: v, enclosure: Enclosure::Bare }
}

pub open spec fn quoted(k: Seq<char>, v: Seq<char>) -> Field {
    Field { key: k, value: v, enclosure: Enclosure::Quoted }
}

proof fn lemma_without_absent<V>(es: Seq<(Seq<char>, V)>, k: Seq<char>)
    requires
        forall|i: int| 0 <= i < es.len() ==> (#[trigger] es[i]).0 != k,
    ensures
        without_key(es, k) == es,
    decreases es.len(),
{
    if es.len() > 0 {
        let init = es.drop_last();
        assert forall|i: int| 0 <= i < init.len() implies (#[trigger] init[i]).0 != k by {
            assert(init[i] == es[i]);
        }
        lemma_without_absent(init, k);
        assert(es.last() == es[es.len() - 1]);
        assert(init.push(es.last()) =~= es);
    }
}

/// Adding a pair under a new key appends it, and a lookup then finds it.
proof fn lemma_entries_push(fs: Seq<Field>, f: Field)
    requires
        forall|i: int| 0 <= i < entries_of(fs).len() ==> (#[trigger] entries_of(fs)[i]).0 != f.key,
    ensures
        entries_of(fs.push(f)) == entries_of(fs).push((f.key, f.value)),
        forall|q: Seq<char>|
            #[trigger] lookup(entries_of(fs.push(f)), q) == if q == f.key {
                Some(f.value)
            } else {
                lookup(entries_of(fs), q)
            },
{
    assert(fs.push(f).drop_last() =~= fs);
    lemma_without_absent(entries_of(fs), f.key);
    let es = entries_of(fs).push((f.key, f.value));
    assert(es.drop_last() =~= entries_of(fs));
}

proof fn lemma_entries_one(f: Field)
    ensures
        entries_of(seq![f]) == seq![(f.key, f.value)],
        forall|q: Seq<char>|
            #[trigger] lookup(entries_of(seq![f]), q) == if q == f.key {
                Some(f.value)
            } else {
                None
            },
{
    assert(seq![f].drop_last() =~= Seq::<Field>::empty());
    assert(entries_of(Seq::<Field>::empty()) == Seq::<(Seq<char>, Seq<char>)>::empty());
    assert(without_key(Seq::<(Seq<char>, Seq<char>)>::empty(), f.key) =~= Seq::<
        (Seq<char>, Seq<char>),
    >::empty());
    assert(entries_of(seq![f]) =~= seq![(f.key, f.value)]);
    let es = seq![(f.key, f.value)];
    assert(es.drop_last() =~= Seq::<(Seq<char>, Seq<char>)>::empty());
    assert(es.last() == (f.key, f.value));
    assert forall|q: Seq<char>| #[trigger] lookup(entries_of(seq![f]), q) == if q == f.key {
        Some(f.value)
    } else {
        None
    } by {
        assert(lookup(es.drop_last(), q) is None);
    }
}

proof fn lemma_fields_push(fs: Seq<Field>, f: Field)
    requires
        fs.len() > 0,
    ensures
        fields_text(fs.push(f)) == fields_text(fs) + seq![','] + field_text(f),
{
    assert(fs.push(f).drop_last() =~= fs);
}

/// The characters of the tags and keys that header lines use.
proof fn tag_texts()
    ensures
        "ALT"@ == seq!['A', 'L', 'T'],
        "assembly"@ == seq!['a', 's', 's', 'e', 'm', 'b', 'l', 'y'],
        "contig"@ == seq!['c', 'o', 'n', 't', 'i', 'g'],
        "fileDate"@ == seq!['f', 'i', 'l', 'e', 'D', 'a', 't', 'e'],
        "FILTER"@ == seq!['F', 'I', 'L', 'T', 'E', 'R'],
        "FORMAT"@ == seq!['F', 'O', 'R', 'M', 'A', 'T'],
        "INFO"@ == seq!['I', 'N', 'F', 'O'],
        "META"@ == seq!['M', 'E', 'T', 'A'],
        "PEDIGREE"@ == seq!['P', 'E', 'D', 'I', 'G', 'R', 'E', 'E'],
        "pedigreeDB"@ == seq!['p', 'e', 'd', 'i', 'g', 'r', 'e', 'e', 'D', 'B'],
        "SAMPLE"@ == seq!['S', 'A', 'M', 'P', 'L', 'E'],
        "ID"@ == seq!['I', 'D'],
        "Description"@ == seq!['D', 'e', 's', 'c', 'r', 'i', 'p', 't', 'i', 'o', 'n'],
        "Number"@ == seq!['N', 'u', 'm', 'b', 'e', 'r'],
        "Type"@ == seq!['T', 'y', 'p', 'e'],
        "Source"@ == seq!['S', 'o', 'u', 'r', 'c', 'e'],
        "Version"@ == seq!['V', 'e', 'r', 's', 'i', 'o', 'n'],
        "Original"@ == seq!['O', 'r', 'i', 'g', 'i', 'n', 'a', 'l'],
        "Father"@ == seq!['F', 'a', 't', 'h', 'e', 'r'],
        "Mother"@ == seq!['M', 'o', 't', 'h', 'e', 'r'],
        "Name_1"@ == seq!['N', 'a', 'm', 'e', '_', '1'],
        "Value"@ == seq!['V', 'a', 'l', 'u', 'e'],
        "species"@ == seq!['s', 'p', 'e', 'c', 'i', 'e', 's'],
        "DOI"@ == seq!['D', 'O', 'I'],
        "Values"@ == seq!['V', 'a', 'l', 'u', 'e', 's'],
{
    reveal_strlit("ALT");
    reveal_strlit("assembly");
    reveal_strlit("contig");
    reveal_strlit("fileDate");
    reveal_strlit("FILTER");
    reveal_strlit("FORMAT");
    reveal_strlit("INFO");
    reveal_strlit("META");
    reveal_strlit("PEDIGREE");
    reveal_strlit("pedigreeDB");
    reveal_strlit("SAMPLE");
    reveal_strlit("ID");
    reveal_strlit("Description");
    reveal_strlit("Number");
    reveal_strlit("Type");
    reveal_strlit("Source");
    reveal_strlit("Version");
    reveal_strlit("Original");
    reveal_strlit("Father");
    reveal_strlit("Mother");
    reveal_strlit("Name_1");
    reveal_strlit("Value");
    reveal_strlit("species");
    reveal_strlit("DOI");
    reveal_strlit("Values");
    assert("ALT"@ =~= seq!['A', 'L', 'T']);
    assert("assembly"@ =~= seq!['a', 's', 's', 'e', 'm', 'b', 'l', 'y']);
    assert("contig"@ =~= seq!['c', 'o', 'n', 't', 'i', 'g']);
    assert("fileDate"@ =~= seq!['f', 'i', 'l', 'e', 'D', 'a', 't', 'e']);
    assert("FILTER"@ =~= seq!['F', 'I', 'L', 'T', 'E', 'R']);
    assert("FORMAT"@ =~= seq!['F', 'O', 'R', 'M', 'A', 'T']);
    assert("INFO"@ =~= seq!['I', 'N', 'F', 'O']);
    assert("META"@ =~= seq!['M', 'E', 'T', 'A']);
    assert("PEDIGREE"@ =~= seq!['P', 'E', 'D', 'I', 'G', 'R', 'E', 'E']);
    assert("pedigreeDB"@ =~= seq!['p', 'e', 'd', 'i', 'g', 'r', 'e', 'e', 'D', 'B']);
    assert("SAMPLE"@ =~= seq!['S', 'A', 'M', 'P', 'L', 'E']);
    assert("ID"@ =~= seq!['I', 'D']);
    assert("Description"@ =~= seq!['D', 'e', 's', 'c', 'r', 'i', 'p', 't', 'i', 'o', 'n']);
    assert("Number"@ =~= seq!['N', 'u', 'm', 'b', 'e', 'r']);
    assert("Type"@ =~= seq!['T', 'y', 'p', 'e']);
    assert("Source"@ =~= seq!['S', 'o', 'u', 'r', 'c', 'e']);
    assert("Version"@ =~= seq!['V', 'e', 'r', 's', 'i', 'o', 'n']);
    assert("Original"@ =~= seq!['O', 'r', 'i', 'g', 'i', 'n', 'a', 'l']);
    assert("Father"@ =~= seq!['F', 'a', 't', 'h', 'e', 'r']);
    assert("Mother"@ =~= seq!['M', 'o', 't', 'h', 'e', 'r']);
    assert("Name_1"@ =~= seq!['N', 'a', 'm', 'e', '_', '1']);
    assert("Value"@ =~= seq!['V', 'a', 'l', 'u', 'e']);
    assert("species"@ =~= seq!['s', 'p', 'e', 'c', 'i', 'e', 's']);
    assert("DOI"@ =~= seq!['D', 'O', 'I']);
    assert("Values"@ =~= seq!['V', 'a', 'l', 'u', 'e', 's']);
}

/// The tags of the recognized kinds hold no `=`.
proof fn lemma_tag_no_equals(tag: Seq<char>)
    requires
        tag == "ALT"@ || tag == "assembly"@ || tag == "contig"@ || tag == "fileDate"@ || tag
            == "FILTER"@ || tag == "FORMAT"@ || tag == "INFO"@ || tag == "META"@ || tag
            == "PEDIGREE"@ || tag == "pedigreeDB"@ || tag == "SAMPLE"@,
    ensures
        forall|i: int| 0 <= i < tag.len() ==> #[trigger] tag[i] != '=',
{
    tag_texts();
}

/// Writing a whole-value line and reading it back gives its value back.
proof fn lemma_whole_round_trip(tag: Seq<char>, v: Seq<char>)
    requires
        forall|i: int| 0 <= i < tag.len() ==> #[trigger] tag[i] != '=',
        whole_ok(v),
    ensures
        header_line_of(seq!['#', '#'] + tag + seq!['='] + v) == line_from_entries(
            tag,
            seq![(OTHER_KEY@, v)],
        ),
        lookup(seq![(OTHER_KEY@, v)], OTHER_KEY@) == Some(v),
{
    lemma_tokenize_whole(v);
    lemma_header_split(tag, v);
    let es = seq![(OTHER_KEY@, v)];
    assert(es.drop_last() =~= Seq::<(Seq<char>, Seq<char>)>::empty());
}

/// Two writable pairs under distinct keys, written as a payload, read back
/// as those pairs.
proof fn lemma_two_fields(f1: Field, f2: Field)
    requires
        writable_field(f1),
        writable_field(f2),
        f1.key != f2.key,
    ensures
        payload_entries(seq!['<'] + fields_text(seq![f1].push(f2)) + seq!['>']) == Ok::<_, ErrorView>(
            entries_of(seq![f1].push(f2)),
        ),
        fields_text(seq![f1].push(f2)) == field_text(f1) + seq![','] + field_text(f2),
        entries_of(seq![f1].push(f2)) == seq![(f1.key, f1.value)].push((f2.key, f2.value)),
        forall|q: Seq<char>|
            #[trigger] lookup(entries_of(seq![f1].push(f2)), q) == if q == f2.key {
                Some(f2.value)
            } else if q == f1.key {
                Some(f1.value)
            } else {
                None
            },
{
    let fs = seq![f1].push(f2);
    assert(fs[0] == f1 && fs[1] == f2);
    lemma_tokenize_fields(fs);
    lemma_fields_push(seq![f1], f2);
    lemma_entries_one(f1);
    lemma_entries_push(seq![f1], f2);
}

/// A FILTER line reads back as itself after being written.
#[verifier::spinoff_prover]
#[verifier::rlimit(100)]
proof fn lemma_filter_round_trip(id: Seq<char>, d: Seq<char>)
    requires
        bare_ok(id),
        quoted_ok(d),
    ensures
        header_line_of(header_line_text(HeaderLineView::Filter { id, description: d }))
            == Ok::<_, ErrorView>(HeaderLineView::Filter { id, description: d }),
{
    tag_texts();
    reveal_strlit("##FILTER=<ID=");
    reveal_strlit(",Description=\"");
    reveal_strlit("\">");
    let f1 = bare("ID"@, id);
    let f2 = quoted("Description"@, d);
    lemma_two_fields(f1, f2);
    let payload = seq!['<'] + fields_text(seq![f1].push(f2)) + seq!['>'];
    lemma_tag_no_equals("FILTER"@);
    lemma_header_split("FILTER"@, payload);
    assert(header_line_text(HeaderLineView::Filter { id, description: d }) =~= seq!['#', '#']
        + "FILTER"@ + seq!['='] + payload);
}

/// The characters of the type names.
proof fn type_texts()
    ensures
        "Character"@ == seq!['C', 'h', 'a', 'r', 'a', 'c', 't', 'e', 'r'],
        "Flag"@ == seq!['F', 'l', 'a', 'g'],
        "Float"@ == seq!['F', 'l', 'o', 'a', 't'],
        "Integer"@ == seq!['I', 'n', 't', 'e', 'g', 'e', 'r'],
        "String"@ == seq!['S', 't', 'r', 'i', 'n', 'g'],
{
    reveal_strlit("Character");
    reveal_strlit("Flag");
    reveal_strlit("Float");
    reveal_strlit("Integer");
    reveal_strlit("String");
    assert("Character"@ =~= seq!['C', 'h', 'a', 'r', 'a', 'c', 't', 'e', 'r']);
    assert("Flag"@ =~= seq!['F', 'l', 'a', 'g']);
    assert("Float"@ =~= seq!['F', 'l', 'o', 'a', 't']);
    assert("Integer"@ =~= seq!['I', 'n', 't', 'e', 'g', 'e', 'r']);
    assert("String"@ =~= seq!['S', 't', 'r', 'i', 'n', 'g']);
}

/// The text of a number reads back as that number, and is a bare value.
proof fn lemma_number_round_trip(n: Number)
    ensures
        number_of(Some(number_text(n))) == Ok::<_, ErrorView>(n),
        bare_ok(number_text(n)),
{
    match n {
        Number::Integer(k) => {
            lemma_decimal_round_trip(k as nat, u32::MAX as nat);
            let t = decimal(k as nat);
            assert(is_digit(t[0]));
            assert(t != seq!['A'] && t != seq!['G'] && t != seq!['R'] && t != dot()) by {
                if t == seq!['A'] || t == seq!['G'] || t == seq!['R'] || t == dot() {
                    assert(t[0] == 'A' || t[0] == 'G' || t[0] == 'R' || t[0] == '.');
                }
            }
            assert forall|i: int| 0 <= i < t.len() implies #[trigger] t[i] != ',' && t[i] != '"'
                && t[i] != '[' by {
                assert(is_digit(t[i]));
            }
        },
        _ => {
            assert(seq!['A'] != seq!['G']) by { assert(seq!['A'][0] != seq!['G'][0]); }
            assert(seq!['A'] != seq!['R']) by { assert(seq!['A'][0] != seq!['R'][0]); }
            assert(seq!['G'] != seq!['R']) by { assert(seq!['G'][0] != seq!['R'][0]); }
            assert(seq!['A'] != dot()) by { assert(seq!['A'][0] != dot()[0]); }
            assert(seq!['G'] != dot()) by { assert(seq!['G'][0] != dot()[0]); }
            assert(seq!['R'] != dot()) by { assert(seq!['R'][0] != dot()[0]); }
        },
    }
}

proof fn lemma_format_type_round_trip(t: FormatType)
    ensures
        format_type_of(Some(format_type_text(t))) == Ok::<_, ErrorView>(t),
        bare_ok(format_type_text(t)),
{
    type_texts();
}

proof fn lemma_info_type_round_trip(t: InfoType)
    ensures
        info_type_of(Some(info_type_text(t))) == Ok::<_, ErrorView>(t),
        bare_ok(info_type_text(t)),
{
    type_texts();
}

/// The pairs `ID`, `Number`, `Type`, `Description` of a FORMAT or INFO line.
pub open spec fn typed_fields(id: Seq<char>, number: Number, typ: Seq<char>, d: Seq<char>) -> Seq<Field> {
    seq![bare("ID"@, id)].push(bare("Number"@, number_text(number))).push(bare("Type"@, typ)).push(
        quoted("Description"@, d),
    )
}

/// `fs` with a quoted pair under `k` added if `o` holds a value.
pub open spec fn push_opt_quoted(fs: Seq<Field>, k: Seq<char>, o: Option<Seq<char>>) -> Seq<Field> {
    match o {
        Some(v) => fs.push(quoted(k, v)),
        None => fs,
    }
}

/// The text of the pairs of a FORMAT or INFO line.
proof fn lemma_typed_text(id: Seq<char>, number: Number, typ: Seq<char>, d: Seq<char>)
    ensures
        fields_text(typed_fields(id, number, typ, d)) == field_text(bare("ID"@, id)) + seq![',']
            + field_text(bare("Number"@, number_text(number))) + seq![','] + field_text(
            bare("Type"@, typ),
        ) + seq![','] + field_text(quoted("Description"@, d)),
        typed_fields(id, number, typ, d).len() == 4,
{
    let s1 = seq![bare("ID"@, id)];
    let s2 = s1.push(bare("Number"@, number_text(number)));
    let s3 = s2.push(bare("Type"@, typ));
    lemma_fields_push(s1, bare("Number"@, number_text(number)));
    lemma_fields_push(s2, bare("Type"@, typ));
    lemma_fields_push(s3, quoted("Description"@, d));
    assert(fields_text(s1) == field_text(bare("ID"@, id)));
}

/// The pairs of a FORMAT or INFO line are writable, and their lookups.
proof fn lemma_typed_fields(id: Seq<char>, number: Number, typ: Seq<char>, d: Seq<char>)
    requires
        bare_ok(id),
        bare_ok(number_text(number)),
        bare_ok(typ),
        quoted_ok(d),
    ensures
        typed_fields(id, number, typ, d).len() == 4,
        entries_of(typed_fields(id, number, typ, d)).len() == 4,
        forall|i: int|
            0 <= i < typed_fields(id, number, typ, d).len() ==> writable_field(
                #[trigger] typed_fields(id, number, typ, d)[i],
            ),
        forall|q: Seq<char>|
            #[trigger] lookup(entries_of(typed_fields(id, number, typ, d)), q) == if q
                == "Description"@ {
                Some(d)
            } else if q == "Type"@ {
                Some(typ)
            } else if q == "Number"@ {
                Some(number_text(number))
            } else if q == "ID"@ {
                Some(id)
            } else {
                None
            },
        forall|i: int|
            0 <= i < entries_of(typed_fields(id, number, typ, d)).len() ==> (#[trigger] entries_of(
                typed_fields(id, number, typ, d),
            )[i]).0 != "Source"@ && entries_of(typed_fields(id, number, typ, d))[i].0
                != "Version"@,
{
    tag_texts();
    let f1 = bare("ID"@, id);
    let f2 = bare("Number"@, number_text(number));
    let f3 = bare("Type"@, typ);
    let f4 = quoted("Description"@, d);
    let s1 = seq![f1];
    let s2 = s1.push(f2);
    let s3 = s2.push(f3);
    let s4 = s3.push(f4);
    lemma_entries_one(f1);
    lemma_entries_push(s1, f2);
    lemma_entries_push(s2, f3);
    lemma_entries_push(s3, f4);
    assert(s4[0] == f1 && s4[1] == f2 && s4[2] == f3 && s4[3] == f4);
}

/// A FORMAT line reads back as itself after being written.
proof fn lemma_format_round_trip(id: Seq<char>, number: Number, typ: FormatType, d: Seq<char>)
    requires
        bare_ok(id),
        quoted_ok(d),
    ensures
        header_line_of(header_line_text(HeaderLineView::Format { id, number, typ, description: d }))
            == Ok::<_, ErrorView>(HeaderLineView::Format { id, number, typ, description: d }),
{
    lemma_number_round_trip(number);
    lemma_format_type_round_trip(typ);
    let fs = typed_fields(id, number, format_type_text(typ), d);
    lemma_typed_fields(id, number, format_type_text(typ), d);
    lemma_typed_text(id, number, format_type_text(typ), d);
    lemma_tokenize_fields(fs);
    let payload = seq!['<'] + fields_text(fs) + seq!['>'];
    lemma_tag_no_equals("FORMAT"@);
    lemma_header_split("FORMAT"@, payload);
    lemma_dispatch("FORMAT"@, entries_of(fs));
    lemma_format_text(id, number, typ, d);
    lemma_format_parse(id, number, typ, d);
}

#[verifier::spinoff_prover]
#[verifier::rlimit(100)]
proof fn lemma_format_parse(id: Seq<char>, number: Number, typ: FormatType, d: Seq<char>)
    requires
        bare_ok(id),
        quoted_ok(d),
    ensures
        format_line_of(entries_of(typed_fields(id, number, format_type_text(typ), d))) == Ok::<
            _,
            ErrorView,
        >(HeaderLineView::Format { id, number, typ, description: d }),
{
    tag_texts();
    lemma_number_round_trip(number);
    lemma_format_type_round_trip(typ);
    lemma_typed_fields(id, number, format_type_text(typ), d);
    let m = entries_of(typed_fields(id, number, format_type_text(typ), d));
    assert(lookup(m, "ID"@) == Some(id));
    assert(lookup(m, "Number"@) == Some(number_text(number)));
    assert(lookup(m, "Type"@) == Some(format_type_text(typ)));
    assert(lookup(m, "Description"@) == Some(d));
}

#[verifier::spinoff_prover]
#[verifier::rlimit(100)]
proof fn lemma_format_text(id: Seq<char>, number: Number, typ: FormatType, d: Seq<char>)
    requires
        bare_ok(id),
        quoted_ok(d),
        bare_ok(number_text(number)),
        bare_ok(format_type_text(typ)),
    ensures
        header_line_text(HeaderLineView::Format { id, number, typ, description: d }) == seq![
            '#',
            '#',
        ] + "FORMAT"@ + seq!['='] + (seq!['<'] + fields_text(
            typed_fields(id, number, format_type_text(typ), d),
        ) + seq!['>']),
{
    reveal_strlit("##FORMAT=<ID=");
    reveal_strlit(",Number=");
    reveal_strlit(",Type=");
    reveal_strlit(",Description=\"");
    reveal_strlit("\">");
    reveal_strlit("FORMAT");
    reveal_strlit("ID");
    reveal_strlit("Number");
    reveal_strlit("Type");
    reveal_strlit("Description");
    lemma_typed_text(id, number, format_type_text(typ), d);
    assert(header_line_text(HeaderLineView::Format { id, number, typ, description: d }) =~= seq![
        '#',
        '#',
    ] + "FORMAT"@ + seq!['='] + (seq!['<'] + fields_text(
        typed_fields(id, number, format_type_text(typ), d),
    ) + seq!['>']));
}

/// The pairs of an INFO line.
pub open spec fn info_fields(
    id: Seq<char>,
    number: Number,
    typ: InfoType,
    d: Seq<char>,
    source: Option<Seq<char>>,
    version: Option<Seq<char>>,
) -> Seq<Field> {
    push_opt_quoted(
        push_opt_quoted(typed_fields(id, number, info_type_text(typ), d), "Source"@, source),
        "Version"@,
        version,
    )
}

#[verifier::spinoff_prover]
#[verifier::rlimit(100)]
proof fn lemma_info_fields(
    id: Seq<char>,
    number: Number,
    typ: InfoType,
    d: Seq<char>,
    source: Option<Seq<char>>,
    version: Option<Seq<char>>,
)
    requires
        bare_ok(id),
        quoted_ok(d),
        opt_quoted_ok(source),
        opt_quoted_ok(version),
    ensures
        ({
            let fs = info_fields(id, number, typ, d, source, version);
            let base = typed_fields(id, number, info_type_text(typ), d);
            &&& forall|i: int| 0 <= i < fs.len() ==> writable_field(#[trigger] fs[i])
            &&& fs.len() >= 4
            &&& forall|q: Seq<char>|
                #[trigger] lookup(entries_of(fs), q) == if q == "Version"@ {
                    version
                } else if q == "Source"@ {
                    source
                } else {
                    lookup(entries_of(base), q)
                }
        }),
{
    tag_texts();
    lemma_number_round_trip(number);
    lemma_info_type_round_trip(typ);
    let base = typed_fields(id, number, info_type_text(typ), d);
    lemma_typed_fields(id, number, info_type_text(typ), d);
    let with_source = push_opt_quoted(base, "Source"@, source);
    let fs = push_opt_quoted(with_source, "Version"@, version);
    match source {
        Some(sv) => {
            lemma_entries_push(base, quoted("Source"@, sv));
        },
        None => {},
    }
    assert forall|i: int| 0 <= i < entries_of(with_source).len() implies (#[trigger] entries_of(
        with_source,
    )[i]).0 != "Version"@ by {
        if i < 4 {
            assert(entries_of(with_source)[i] == entries_of(base)[i]);
        }
    }
    match version {
        Some(vv) => {
            lemma_entries_push(with_source, quoted("Version"@, vv));
        },
        None => {},
    }
    assert forall|i: int| 0 <= i < fs.len() implies writable_field(#[trigger] fs[i]) by {
        if i < 4 {
            assert(fs[i] == base[i]);
        } else {
            match source {
                Some(sv) => {
                    if i == 4 {
                        assert(fs[i] == quoted("Source"@, sv));
                    } else {
                        assert(fs[i] == quoted("Version"@, version->Some_0));
                    }
                },
                None => {
                    assert(fs[i] == quoted("Version"@, version->Some_0));
                },
            }
        }
    }
}

proof fn lemma_info_fields_text(
    id: Seq<char>,
    number: Number,
    typ: InfoType,
    d: Seq<char>,
    source: Option<Seq<char>>,
    version: Option<Seq<char>>,
)
    ensures
        fields_text(info_fields(id, number, typ, d, source, version)) == fields_text(
            typed_fields(id, number, info_type_text(typ), d),
        ) + opt_text(seq![','] + "Source"@ + seq!['='] + seq!['"'], source, seq!['"']) + opt_text(
            seq![','] + "Version"@ + seq!['='] + seq!['"'],
            version,
            seq!['"'],
        ),
{
    let base = typed_fields(id, number, info_type_text(typ), d);
    lemma_typed_text(id, number, info_type_text(typ), d);
    let with_source = push_opt_quoted(base, "Source"@, source);
    match source {
        Some(sv) => {
            lemma_fields_push(base, quoted("Source"@, sv));
        },
        None => {},
    }
    match version {
        Some(vv) => {
            lemma_fields_push(with_source, quoted("Version"@, vv));
        },
        None => {},
    }
    assert(fields_text(info_fields(id, number, typ, d, source, version)) =~= fields_text(base)
        + opt_text(seq![','] + "Source"@ + seq!['='] + seq!['"'], source, seq!['"']) + opt_text(
        seq![','] + "Version"@ + seq!['='] + seq!['"'],
        version,
        seq!['"'],
    ));
}

#[verifier::rlimit(100)]
#[verifier::spinoff_prover]
proof fn lemma_info_text(
    id: Seq<char>,
    number: Number,
    typ: InfoType,
    d: Seq<char>,
    source: Option<Seq<char>>,
    version: Option<Seq<char>>,
)
    requires
        bare_ok(id),
        quoted_ok(d),
        opt_quoted_ok(source),
        opt_quoted_ok(version),
    ensures
        header_line_text(HeaderLineView::Info { id, number, typ, description: d, source, version })
            == seq!['#', '#'] + "INFO"@ + seq!['='] + (seq!['<'] + fields_text(
            info_fields(id, number, typ, d, source, version),
        ) + seq!['>']),
{
    assert("##INFO=<ID="@ =~= seq!['#', '#'] + "INFO"@ + seq!['='] + seq!['<'] + "ID"@ + seq!['='])
        by {
        reveal_strlit("##INFO=<ID=");
        reveal_strlit("INFO");
        reveal_strlit("ID");
    }
    assert(",Number="@ =~= seq![','] + "Number"@ + seq!['=']) by {
        reveal_strlit(",Number=");
        reveal_strlit("Number");
    }
    assert(",Type="@ =~= seq![','] + "Type"@ + seq!['=']) by {
        reveal_strlit(",Type=");
        reveal_strlit("Type");
    }
    assert(",Description=\""@ =~= seq![','] + "Description"@ + seq!['='] + seq!['"']) by {
        reveal_strlit(",Description=\"");
        reveal_strlit("Description");
    }
    assert(",Source=\""@ =~= seq![','] + "Source"@ + seq!['='] + seq!['"']) by {
        reveal_strlit(",Source=\"");
        reveal_strlit("Source");
    }
    assert(",Version=\""@ =~= seq![','] + "Version"@ + seq!['='] + seq!['"']) by {
        reveal_strlit(",Version=\"");
        reveal_strlit("Version");
    }
    assert("\""@ =~= seq!['"']) by {
        reveal_strlit("\"");
    }
    assert(">"@ =~= seq!['>']) by {
        reveal_strlit(">");
    }
    lemma_typed_text(id, number, info_type_text(typ), d);
    lemma_info_fields_text(id, number, typ, d, source, version);
    assert(header_line_text(HeaderLineView::Info { id, number, typ, description: d, source, version })
        =~= seq!['#', '#'] + "INFO"@ + seq!['='] + (seq!['<'] + fields_text(
        info_fields(id, number, typ, d, source, version),
    ) + seq!['>']));
}

#[verifier::spinoff_prover]
#[verifier::rlimit(100)]
proof fn lemma_info_parse(
    id: Seq<char>,
    number: Number,
    typ: InfoType,
    d: Seq<char>,
    source: Option<Seq<char>>,
    version: Option<Seq<char>>,
)
    requires
        bare_ok(id),
        quoted_ok(d),
        opt_quoted_ok(source),
        opt_quoted_ok(version),
    ensures
        info_line_of(entries_of(info_fields(id, number, typ, d, source, version))) == Ok::<
            _,
            ErrorView,
        >(HeaderLineView::Info { id, number, typ, description: d, source, version }),
{
    tag_texts();
    lemma_number_round_trip(number);
    lemma_info_type_round_trip(typ);
    lemma_typed_fields(id, number, info_type_text(typ), d);
    lemma_info_fields(id, number, typ, d, source, version);
    let m = entries_of(info_fields(id, number, typ, d, source, version));
    assert(lookup(m, "ID"@) == Some(id));
    assert(lookup(m, "Number"@) == Some(number_text(number)));
    assert(lookup(m, "Type"@) == Some(info_type_text(typ)));
    assert(lookup(m, "Description"@) == Some(d));
    assert(lookup(m, "Source"@) == source);
    assert(lookup(m, "Version"@) == version);
}

/// An INFO line reads back as itself after being written.
proof fn lemma_info_round_trip(
    id: Seq<char>,
    number: Number,
    typ: InfoType,
    d: Seq<char>,
    source: Option<Seq<char>>,
    version: Option<Seq<char>>,
)
    requires
        bare_ok(id),
        quoted_ok(d),
        opt_quoted_ok(source),
        opt_quoted_ok(version),
    ensures
        header_line_of(
            header_line_text(
                HeaderLineView::Info { id, number, typ, description: d, source, version },
            ),
        ) == Ok::<_, ErrorView>(
            HeaderLineView::Info { id, number, typ, description: d, source, version },
        ),
{
    let fs = info_fields(id, number, typ, d, source, version);
    lemma_info_fields(id, number, typ, d, source, version);
    lemma_tokenize_fields(fs);
    let payload = seq!['<'] + fields_text(fs) + seq!['>'];
    lemma_tag_no_equals("INFO"@);
    lemma_header_split("INFO"@, payload);
    lemma_dispatch("INFO"@, entries_of(fs));
    lemma_info_text(id, number, typ, d, source, version);
    lemma_info_parse(id, number, typ, d, source, version);
}

/// Each recognized tag selects its own kind.
proof fn lemma_dispatch(tag: Seq<char>, m: Seq<(Seq<char>, Seq<char>)>)
    ensures
        tag == "ALT"@ ==> line_from_entries(tag, m) == alt_line_of(m),
        tag == "contig"@ ==> line_from_entries(tag, m) == contig_line_of(m),
        tag == "FILTER"@ ==> line_from_entries(tag, m) == filter_line_of(m),
        tag == "FORMAT"@ ==> line_from_entries(tag, m) == format_line_of(m),
        tag == "INFO"@ ==> line_from_entries(tag, m) == info_line_of(m),
        tag == "PEDIGREE"@ ==> line_from_entries(tag, m) == pedigree_line_of(m),
        tag == "SAMPLE"@ ==> line_from_entries(tag, m) == sample_line_of(m),
{
    tag_texts();
}

/// A line whose payload is one whole value reads back as itself.
proof fn lemma_whole_kind_round_trip(h: HeaderLineView)
    requires
        h is Assembly || h is FileDate || h is PedigreeDB,
        writes_back(h),
    ensures
        header_line_of(header_line_text(h)) == Ok::<_, ErrorView>(h),
{
    tag_texts();
    match h {
        HeaderLineView::Assembly(v) => {
            reveal_strlit("##assembly=");
            lemma_tag_no_equals("assembly"@);
            lemma_whole_round_trip("assembly"@, v);
            assert(header_line_text(h) =~= seq!['#', '#'] + "assembly"@ + seq!['='] + v);
        },
        HeaderLineView::FileDate(v) => {
            reveal_strlit("##fileDate=");
            lemma_tag_no_equals("fileDate"@);
            lemma_whole_round_trip("fileDate"@, v);
            assert(header_line_text(h) =~= seq!['#', '#'] + "fileDate"@ + seq!['='] + v);
        },
        HeaderLineView::PedigreeDB(v) => {
            reveal_strlit("##pedigreeDB=");
            lemma_tag_no_equals("pedigreeDB"@);
            lemma_whole_round_trip("pedigreeDB"@, v);
            assert(header_line_text(h) =~= seq!['#', '#'] + "pedigreeDB"@ + seq!['='] + v);
        },
        _ => {},
    }
}

/// No position before the first `c` holds `c`.
proof fn lemma_first_index_prefix(s: Seq<char>, c: char)
    requires
        first_index(s, c) is Some,
    ensures
        first_index(s, c)->Some_0 < s.len(),
        s[first_index(s, c)->Some_0 as int] == c,
        forall|j: int| 0 <= j < first_index(s, c)->Some_0 ==> s[j] != c,
    decreases s.len(),
{
    if s[0] != c {
        let t = s.drop_first();
        lemma_first_index_prefix(t, c);
        assert forall|j: int| 0 <= j < first_index(s, c)->Some_0 implies s[j] != c by {
            if j > 0 {
                assert(s[j] == t[j - 1]);
            }
        }
    }
}

/// A line of an unrecognized kind reads back as itself.
proof fn lemma_other_round_trip(line: Seq<char>, key: Seq<char>, value: Seq<char>)
    requires
        header_line_of(line) == Ok::<_, ErrorView>(HeaderLineView::Other { key, value }),
        whole_ok(value),
    ensures
        header_line_of(header_line_text(HeaderLineView::Other { key, value })) == Ok::<
            _,
            ErrorView,
        >(HeaderLineView::Other { key, value }),
{
    let k = first_index(line, '=')->Some_0;
    lemma_first_index_prefix(line, '=');
    assert(key == line.subrange(2, k as int));
    assert forall|i: int| 0 <= i < key.len() implies #[trigger] key[i] != '=' by {
        assert(key[i] == line[i + 2]);
    }
    let m = payload_entries(line.skip(k + 1 as int))->Ok_0;
    assert(line_from_entries(key, m) == Ok::<_, ErrorView>(HeaderLineView::Other { key, value }));
    lemma_whole_round_trip(key, value);
    reveal_strlit("##");
    reveal_strlit("=");
    assert(header_line_text(HeaderLineView::Other { key, value }) =~= seq!['#', '#'] + key + seq![
        '=',
    ] + value);
}

/// A PEDIGREE line with an original reads back as itself.
#[verifier::spinoff_prover]
#[verifier::rlimit(100)]
proof fn lemma_original_round_trip(id: Seq<char>, o: Seq<char>)
    requires
        bare_ok(id),
        bare_ok(o),
    ensures
        header_line_of(
            header_line_text(HeaderLineView::Pedigree { id, relation: PedigreeView::Original(o) }),
        ) == Ok::<_, ErrorView>(
            HeaderLineView::Pedigree { id, relation: PedigreeView::Original(o) },
        ),
{
    tag_texts();
    reveal_strlit("##PEDIGREE=<ID=");
    reveal_strlit(",");
    reveal_strlit("Original=");
    reveal_strlit(">");
    let f1 = bare("ID"@, id);
    let f2 = bare("Original"@, o);
    lemma_two_fields(f1, f2);
    let payload = seq!['<'] + fields_text(seq![f1].push(f2)) + seq!['>'];
    lemma_tag_no_equals("PEDIGREE"@);
    lemma_header_split("PEDIGREE"@, payload);
    lemma_dispatch("PEDIGREE"@, entries_of(seq![f1].push(f2)));
    assert(header_line_text(HeaderLineView::Pedigree { id, relation: PedigreeView::Original(o) })
        =~= seq!['#', '#'] + "PEDIGREE"@ + seq!['='] + payload);
}

/// The pairs of a PEDIGREE line with parents.
pub open spec fn parents_fields(id: Seq<char>, f: Seq<char>, m: Seq<char>) -> Seq<Field> {
    seq![bare("ID"@, id)].push(bare("Father"@, f)).push(bare("Mother"@, m))
}

proof fn lemma_parents_fields(id: Seq<char>, f: Seq<char>, m: Seq<char>)
    requires
        bare_ok(id),
        bare_ok(f),
        bare_ok(m),
    ensures
        ({
            let fs = parents_fields(id, f, m);
            &&& fs.len() == 3
            &&& forall|i: int| 0 <= i < fs.len() ==> writable_field(#[trigger] fs[i])
            &&& fields_text(fs) == field_text(bare("ID"@, id)) + seq![','] + field_text(
                bare("Father"@, f),
            ) + seq![','] + field_text(bare("Mother"@, m))
            &&& forall|q: Seq<char>|
                #[trigger] lookup(entries_of(fs), q) == if q == "Mother"@ {
                    Some(m)
                } else if q == "Father"@ {
                    Some(f)
                } else if q == "ID"@ {
                    Some(id)
                } else {
                    None
                }
        }),
{
    tag_texts();
    let f1 = bare("ID"@, id);
    let f2 = bare("Father"@, f);
    let f3 = bare("Mother"@, m);
    lemma_two_fields(f1, f2);
    let s2 = seq![f1].push(f2);
    let s3 = s2.push(f3);
    lemma_entries_push(s2, f3);
    lemma_fields_push(s2, f3);
    assert(s3[0] == f1 && s3[1] == f2 && s3[2] == f3);
}

#[verifier::spinoff_prover]
proof fn lemma_parents_text(id: Seq<char>, f: Seq<char>, m: Seq<char>)
    requires
        bare_ok(id),
        bare_ok(f),
        bare_ok(m),
    ensures
        header_line_text(HeaderLineView::Pedigree { id, relation: PedigreeView::Parents(f, m) })
            == seq!['#', '#'] + "PEDIGREE"@ + seq!['='] + (seq!['<'] + fields_text(
            parents_fields(id, f, m),
        ) + seq!['>']),
{
    lemma_parents_fields(id, f, m);
    assert("##PEDIGREE=<ID="@ =~= seq!['#', '#'] + "PEDIGREE"@ + seq!['='] + seq!['<'] + "ID"@
        + seq!['=']) by {
        reveal_strlit("##PEDIGREE=<ID=");
        reveal_strlit("PEDIGREE");
        reveal_strlit("ID");
    }
    assert(","@ =~= seq![',']) by {
        reveal_strlit(",");
    }
    assert("Father="@ =~= "Father"@ + seq!['=']) by {
        reveal_strlit("Father=");
        reveal_strlit("Father");
    }
    assert(",Mother="@ =~= seq![','] + "Mother"@ + seq!['=']) by {
        reveal_strlit(",Mother=");
        reveal_strlit("Mother");
    }
    assert(">"@ =~= seq!['>']) by {
        reveal_strlit(">");
    }
    assert(header_line_text(HeaderLineView::Pedigree { id, relation: PedigreeView::Parents(f, m) })
        =~= seq!['#', '#'] + "PEDIGREE"@ + seq!['='] + (seq!['<'] + fields_text(
        parents_fields(id, f, m),
    ) + seq!['>']));
}

#[verifier::spinoff_prover]
proof fn lemma_parents_parse(id: Seq<char>, f: Seq<char>, m: Seq<char>)
    requires
        bare_ok(id),
        bare_ok(f),
        bare_ok(m),
    ensures
        pedigree_line_of(entries_of(parents_fields(id, f, m))) == Ok::<_, ErrorView>(
            HeaderLineView::Pedigree { id, relation: PedigreeView::Parents(f, m) },
        ),
{
    tag_texts();
    lemma_parents_fields(id, f, m);
    let es = entries_of(parents_fields(id, f, m));
    assert(lookup(es, "ID"@) == Some(id));
    assert(lookup(es, "Original"@) is None);
    assert(lookup(es, "Father"@) == Some(f));
    assert(lookup(es, "Mother"@) == Some(m));
}

/// A PEDIGREE line with parents reads back as itself.
proof fn lemma_parents_round_trip(id: Seq<char>, f: Seq<char>, m: Seq<char>)
    requires
        bare_ok(id),
        bare_ok(f),
        bare_ok(m),
    ensures
        header_line_of(
            header_line_text(HeaderLineView::Pedigree { id, relation: PedigreeView::Parents(f, m) }),
        ) == Ok::<_, ErrorView>(
            HeaderLineView::Pedigree { id, relation: PedigreeView::Parents(f, m) },
        ),
{
    let fs = parents_fields(id, f, m);
    lemma_parents_fields(id, f, m);
    lemma_tokenize_fields(fs);
    let payload = seq!['<'] + fields_text(fs) + seq!['>'];
    lemma_tag_no_equals("PEDIGREE"@);
    lemma_header_split("PEDIGREE"@, payload);
    lemma_dispatch("PEDIGREE"@, entries_of(fs));
    lemma_parents_text(id, f, m);
    lemma_parents_parse(id, f, m);
}

/// Bare pairs with the keys and values of `es`.
pub open spec fn bare_fields(es: Seq<(Seq<char>, Seq<char>)>) -> Seq<Field> {
    es.map_values(|e: (Seq<char>, Seq<char>)| bare(e.0, e.1))
}

/// Whether no two entries of `es` have the same key.
pub open spec fn distinct_keys<V>(es: Seq<(Seq<char>, V)>) -> bool {
    forall|i: int, j: int| 0 <= i < j < es.len() ==> (#[trigger] es[i]).0 != (#[trigger] es[j]).0
}

/// Whether no entry of `es` has key `k`.
pub open spec fn lacks_key<V>(es: Seq<(Seq<char>, V)>, k: Seq<char>) -> bool {
    forall|i: int| 0 <= i < es.len() ==> (#[trigger] es[i]).0 != k
}

proof fn lemma_fields_text_append(fs: Seq<Field>, es: Seq<(Seq<char>, Seq<char>)>)
    requires
        fs.len() > 0,
    ensures
        fields_text(fs + bare_fields(es)) == fields_text(fs) + pairs_text(es),
    decreases es.len(),
{
    if es.len() == 0 {
        assert(fs + bare_fields(es) =~= fs);
        assert(fields_text(fs) + pairs_text(es) =~= fields_text(fs));
    } else {
        let init = es.drop_last();
        lemma_fields_text_append(fs, init);
        assert(fs + bare_fields(es) =~= (fs + bare_fields(init)).push(bare(es.last().0, es.last().1)));
        lemma_fields_push(fs + bare_fields(init), bare(es.last().0, es.last().1));
        reveal_strlit(",");
        reveal_strlit("=");
        assert(fields_text(fs + bare_fields(es)) =~= fields_text(fs) + pairs_text(es));
    }
}

proof fn lemma_entries_append(fs: Seq<Field>, es: Seq<(Seq<char>, Seq<char>)>)
    requires
        distinct_keys(es),
        forall|i: int| 0 <= i < es.len() ==> lacks_key(entries_of(fs), (#[trigger] es[i]).0),
    ensures
        entries_of(fs + bare_fields(es)) == entries_of(fs) + es,
    decreases es.len(),
{
    if es.len() == 0 {
        assert(fs + bare_fields(es) =~= fs);
        assert(entries_of(fs) + es =~= entries_of(fs));
    } else {
        let init = es.drop_last();
        let e = es.last();
        assert forall|i: int, j: int| 0 <= i < j < init.len() implies (#[trigger] init[i]).0
            != (#[trigger] init[j]).0 by {
            assert(init[i] == es[i] && init[j] == es[j]);
        }
        assert forall|i: int| 0 <= i < init.len() implies lacks_key(entries_of(fs), (#[trigger] init[i]).0) by {
            assert(init[i] == es[i]);
        }
        lemma_entries_append(fs, init);
        assert(fs + bare_fields(es) =~= (fs + bare_fields(init)).push(bare(e.0, e.1)));
        assert(e == es[es.len() - 1]);
        assert forall|i: int| 0 <= i < entries_of(fs + bare_fields(init)).len() implies (
        #[trigger] entries_of(fs + bare_fields(init))[i]).0 != e.0 by {
            if i < entries_of(fs).len() {
                assert(entries_of(fs + bare_fields(init))[i] == entries_of(fs)[i]);
            } else {
                assert(entries_of(fs + bare_fields(init))[i] == es[i - entries_of(fs).len()]);
            }
        }
        lemma_entries_push(fs + bare_fields(init), bare(e.0, e.1));
        assert(entries_of(fs + bare_fields(es)) =~= entries_of(fs) + es);
    }
}

proof fn lemma_lookup_append<V>(a: Seq<(Seq<char>, V)>, b: Seq<(Seq<char>, V)>, q: Seq<char>)
    requires
        lacks_key(b, q),
    ensures
        lookup(a + b, q) == lookup(a, q),
    decreases b.len(),
{
    if b.len() == 0 {
        assert(a + b =~= a);
    } else {
        let init = b.drop_last();
        assert forall|i: int| 0 <= i < init.len() implies (#[trigger] init[i]).0 != q by {
            assert(init[i] == b[i]);
        }
        lemma_lookup_append(a, init, q);
        assert((a + b).drop_last() =~= a + init);
        assert(b.last() == b[b.len() - 1]);
    }
}

proof fn lemma_without_append<V>(a: Seq<(Seq<char>, V)>, b: Seq<(Seq<char>, V)>, k: Seq<char>)
    requires
        lacks_key(b, k),
    ensures
        without_key(a + b, k) == without_key(a, k) + b,
    decreases b.len(),
{
    if b.len() == 0 {
        assert(a + b =~= a);
        assert(without_key(a, k) + b =~= without_key(a, k));
    } else {
        let init = b.drop_last();
        assert forall|i: int| 0 <= i < init.len() implies (#[trigger] init[i]).0 != k by {
            assert(init[i] == b[i]);
        }
        lemma_without_append(a, init, k);
        assert((a + b).drop_last() =~= a + init);
        assert(b.last() == b[b.len() - 1]);
        assert((a + b).last() == b.last());
        assert(without_key(a, k) + b =~= (without_key(a, k) + init).push(b.last()));
    }
}

proof fn lemma_reinsert_distinct<V>(es: Seq<(Seq<char>, V)>)
    requires
        distinct_keys(es),
    ensures
        reinsert(es) == es,
    decreases es.len(),
{
    if es.len() > 0 {
        let init = es.drop_last();
        assert forall|i: int, j: int| 0 <= i < j < init.len() implies (#[trigger] init[i]).0
            != (#[trigger] init[j]).0 by {
            assert(init[i] == es[i] && init[j] == es[j]);
        }
        lemma_reinsert_distinct(init);
        assert forall|i: int| 0 <= i < init.len() implies (#[trigger] init[i]).0 != es.last().0 by {
            assert(init[i] == es[i]);
            assert(es.last() == es[es.len() - 1]);
        }
        lemma_without_absent(init, es.last().0);
        assert(init.push(es.last()) =~= es);
    }
}

/// Whether the attributes of a contig or sample line can be written back:
/// keys that are writable, distinct and none of `reserved`.
pub open spec fn attributes_ok<V>(es: Seq<(Seq<char>, V)>, reserved: Seq<Seq<char>>) -> bool {
    &&& distinct_keys(es)
    &&& forall|i: int| 0 <= i < es.len() ==> writable_key((#[trigger] es[i]).0)
    &&& forall|i: int, j: int|
        0 <= i < es.len() && 0 <= j < reserved.len() ==> (#[trigger] es[i]).0 != #[trigger] reserved[j]
}

/// The ID and species pairs of a contig line.
pub open spec fn contig_head(id: Seq<char>, species: Option<Seq<char>>) -> Seq<Field> {
    push_opt_quoted(seq![bare("ID"@, id)], "species"@, species)
}

/// The pairs of a contig line: ID, species if present, then the others.
pub open spec fn contig_fields(
    id: Seq<char>,
    species: Option<Seq<char>>,
    other: Seq<(Seq<char>, Seq<char>)>,
) -> Seq<Field> {
    contig_head(id, species) + bare_fields(other)
}

#[verifier::spinoff_prover]
#[verifier::rlimit(100)]
proof fn lemma_contig_fields(
    id: Seq<char>,
    species: Option<Seq<char>>,
    other: Seq<(Seq<char>, Seq<char>)>,
)
    requires
        bare_ok(id),
        opt_quoted_ok(species),
        attributes_ok(other, seq!["ID"@, "species"@]),
        forall|i: int| 0 <= i < other.len() ==> bare_ok((#[trigger] other[i]).1),
    ensures
        ({
            let fs = contig_fields(id, species, other);
            &&& fs.len() > 0
            &&& forall|i: int| 0 <= i < fs.len() ==> writable_field(#[trigger] fs[i])
            &&& entries_of(fs) == entries_of(contig_head(id, species)) + other
            &&& fields_text(fs) == fields_text(contig_head(id, species)) + pairs_text(other)
            &&& lacks_key(other, "ID"@)
            &&& lacks_key(other, "species"@)
        }),
{
    tag_texts();
    let head = contig_head(id, species);
    let fs = head + bare_fields(other);
    let f1 = bare("ID"@, id);
    lemma_entries_one(f1);
    match species {
        Some(sv) => {
            lemma_entries_push(seq![f1], quoted("species"@, sv));
        },
        None => {},
    }
    let reserved = seq!["ID"@, "species"@];
    assert forall|i: int| 0 <= i < other.len() implies lacks_key(entries_of(head), (#[trigger] other[i]).0) by {
        assert(other[i].0 != reserved[0]);
        assert(other[i].0 != reserved[1]);
    }
    lemma_entries_append(head, other);
    lemma_fields_text_append(head, other);
    assert forall|i: int| 0 <= i < fs.len() implies writable_field(#[trigger] fs[i]) by {
        if i >= head.len() {
            assert(fs[i] == bare(other[i - head.len()].0, other[i - head.len()].1));
        } else if i == 0 {
            assert(fs[i] == f1);
        } else {
            assert(fs[i] == quoted("species"@, species->Some_0));
        }
    }
    assert forall|i: int| 0 <= i < other.len() implies (#[trigger] other[i]).0 != "ID"@ by {
        assert(other[i].0 != reserved[0]);
    }
    assert forall|i: int| 0 <= i < other.len() implies (#[trigger] other[i]).0 != "species"@ by {
        assert(other[i].0 != reserved[1]);
    }
}

#[verifier::spinoff_prover]
#[verifier::rlimit(100)]
proof fn lemma_contig_text(
    id: Seq<char>,
    species: Option<Seq<char>>,
    other: Seq<(Seq<char>, Seq<char>)>,
)
    requires
        bare_ok(id),
        opt_quoted_ok(species),
        attributes_ok(other, seq!["ID"@, "species"@]),
        forall|i: int| 0 <= i < other.len() ==> bare_ok((#[trigger] other[i]).1),
    ensures
        header_line_text(HeaderLineView::Contig { id, species, other }) == seq!['#', '#']
            + "contig"@ + seq!['='] + (seq!['<'] + fields_text(contig_fields(id, species, other))
            + seq!['>']),
{
    lemma_contig_fields(id, species, other);
    let f1 = bare("ID"@, id);
    assert(fields_text(seq![f1]) == field_text(f1));
    match species {
        Some(sv) => {
            lemma_fields_push(seq![f1], quoted("species"@, sv));
        },
        None => {},
    }
    assert("##contig=<ID="@ =~= seq!['#', '#'] + "contig"@ + seq!['='] + seq!['<'] + "ID"@ + seq!['='])
        by {
        reveal_strlit("##contig=<ID=");
        reveal_strlit("contig");
        reveal_strlit("ID");
    }
    assert(",species=\""@ =~= seq![','] + "species"@ + seq!['='] + seq!['"']) by {
        reveal_strlit(",species=\"");
        reveal_strlit("species");
    }
    assert("\""@ =~= seq!['"']) by {
        reveal_strlit("\"");
    }
    assert(">"@ =~= seq!['>']) by {
        reveal_strlit(">");
    }
    assert(header_line_text(HeaderLineView::Contig { id, species, other }) =~= seq!['#', '#']
        + "contig"@ + seq!['='] + (seq!['<'] + fields_text(contig_fields(id, species, other))
        + seq!['>']));
}

#[verifier::spinoff_prover]
#[verifier::rlimit(100)]
proof fn lemma_contig_parse(
    id: Seq<char>,
    species: Option<Seq<char>>,
    other: Seq<(Seq<char>, Seq<char>)>,
)
    requires
        bare_ok(id),
        opt_quoted_ok(species),
        attributes_ok(other, seq!["ID"@, "species"@]),
        forall|i: int| 0 <= i < other.len() ==> bare_ok((#[trigger] other[i]).1),
    ensures
        contig_line_of(entries_of(contig_fields(id, species, other))) == Ok::<_, ErrorView>(
            HeaderLineView::Contig { id, species, other },
        ),
{
    tag_texts();
    lemma_contig_fields(id, species, other);
    let head = contig_head(id, species);
    let f1 = bare("ID"@, id);
    lemma_entries_one(f1);
    match species {
        Some(sv) => {
            lemma_entries_push(seq![f1], quoted("species"@, sv));
        },
        None => {},
    }
    lemma_lookup_append(entries_of(head), other, "ID"@);
    lemma_lookup_append(entries_of(head), other, "species"@);
    lemma_without_append(entries_of(head), other, "ID"@);
    lemma_without_append(without_key(entries_of(head), "ID"@), other, "species"@);
    let wh = without_key(without_key(entries_of(head), "ID"@), "species"@);
    let e1 = seq![(f1.key, f1.value)];
    assert(e1.drop_last() =~= Seq::<(Seq<char>, Seq<char>)>::empty());
    assert(e1.last() == (f1.key, f1.value));
    let empty = Seq::<(Seq<char>, Seq<char>)>::empty();
    assert(without_key(empty, "ID"@) == empty);
    assert(without_key(empty, "species"@) == empty);
    assert(without_key(e1, "ID"@) == without_key(e1.drop_last(), "ID"@));
    assert(without_key(e1, "ID"@) =~= empty);
    match species {
        Some(sv) => {
            let e2 = e1.push(("species"@, sv));
            assert(e2.drop_last() =~= e1);
            assert(e2.last() == ("species"@, sv));
            let r = seq![("species"@, sv)];
            assert(without_key(e2, "ID"@) == without_key(e1, "ID"@).push(("species"@, sv)));
            assert(without_key(e2, "ID"@) =~= r);
            assert(r.drop_last() =~= empty);
            assert(r.last() == ("species"@, sv));
            assert(without_key(r, "species"@) == without_key(r.drop_last(), "species"@));
            assert(wh =~= Seq::<(Seq<char>, Seq<char>)>::empty());
        },
        None => {
            assert(without_key(empty, "species"@) == empty);
            assert(wh =~= Seq::<(Seq<char>, Seq<char>)>::empty());
        },
    }
    assert(wh + other =~= other);
    lemma_reinsert_distinct(other);
}

/// A contig line reads back as itself.
proof fn lemma_contig_round_trip(
    id: Seq<char>,
    species: Option<Seq<char>>,
    other: Seq<(Seq<char>, Seq<char>)>,
)
    requires
        bare_ok(id),
        opt_quoted_ok(species),
        attributes_ok(other, seq!["ID"@, "species"@]),
        forall|i: int| 0 <= i < other.len() ==> bare_ok((#[trigger] other[i]).1),
    ensures
        header_line_of(header_line_text(HeaderLineView::Contig { id, species, other })) == Ok::<
            _,
            ErrorView,
        >(HeaderLineView::Contig { id, species, other }),
{
    let fs = contig_fields(id, species, other);
    lemma_contig_fields(id, species, other);
    lemma_tokenize_fields(fs);
    let payload = seq!['<'] + fields_text(fs) + seq!['>'];
    lemma_tag_no_equals("contig"@);
    lemma_header_split("contig"@, payload);
    lemma_dispatch("contig"@, entries_of(fs));
    lemma_contig_text(id, species, other);
    lemma_contig_parse(id, species, other);
}

/// The attributes of a sample line with their lists joined by `;`.
pub open spec fn joined_entries(es: Seq<(Seq<char>, Seq<Seq<char>>)>) -> Seq<(Seq<char>, Seq<char>)> {
    es.map_values(|e: (Seq<char>, Seq<Seq<char>>)| (e.0, join(e.1, ';')))
}

/// Whether a list of values can be written joined by `;` and read back.
pub open spec fn list_ok(vs: Seq<Seq<char>>) -> bool {
    &&& vs.len() > 0
    &&& forall|j: int| 0 <= j < vs.len() ==> !(#[trigger] vs[j]).contains(';')
    &&& bare_ok(join(vs, ';'))
}

pub open spec fn opt_bare_ok(o: Option<Seq<char>>) -> bool {
    match o {
        Some(v) => bare_ok(v),
        None => true,
    }
}

/// The pairs of a sample line: ID, the attributes, Description, DOI if present.
pub open spec fn sample_fields(
    id: Seq<char>,
    meta: Seq<(Seq<char>, Seq<Seq<char>>)>,
    d: Seq<char>,
    doi: Option<Seq<char>>,
) -> Seq<Field> {
    let fs = (seq![bare("ID"@, id)] + bare_fields(joined_entries(meta))).push(quoted("Description"@, d));
    match doi {
        Some(v) => fs.push(bare("DOI"@, v)),
        None => fs,
    }
}

/// The condition under which a sample line is shown to read back.
pub open spec fn sample_ok(
    id: Seq<char>,
    meta: Seq<(Seq<char>, Seq<Seq<char>>)>,
    d: Seq<char>,
    doi: Option<Seq<char>>,
) -> bool {
    &&& bare_ok(id)
    &&& quoted_ok(d)
    &&& opt_bare_ok(doi)
    &&& attributes_ok(meta, seq!["ID"@, "Description"@, "DOI"@])
    &&& forall|i: int| 0 <= i < meta.len() ==> list_ok((#[trigger] meta[i]).1)
}

proof fn lemma_list_pairs_text(es: Seq<(Seq<char>, Seq<Seq<char>>)>)
    ensures
        list_pairs_text(es) == pairs_text(joined_entries(es)),
    decreases es.len(),
{
    if es.len() > 0 {
        lemma_list_pairs_text(es.drop_last());
        assert(joined_entries(es).drop_last() =~= joined_entries(es.drop_last()));
        assert(joined_entries(es).last() == (es.last().0, join(es.last().1, ';')));
    }
}

proof fn lemma_without_concat<V>(a: Seq<(Seq<char>, V)>, b: Seq<(Seq<char>, V)>, k: Seq<char>)
    ensures
        without_key(a + b, k) == without_key(a, k) + without_key(b, k),
    decreases b.len(),
{
    if b.len() == 0 {
        assert(a + b =~= a);
        assert(without_key(a, k) + without_key(b, k) =~= without_key(a, k));
    } else {
        let init = b.drop_last();
        lemma_without_concat(a, init, k);
        assert((a + b).drop_last() =~= a + init);
        assert((a + b).last() == b.last());
        if b.last().0 != k {
            assert(without_key(a, k) + without_key(b, k) =~= (without_key(a, k) + without_key(
                init,
                k,
            )).push(b.last()));
        }
    }
}

proof fn lemma_split_values_joined(meta: Seq<(Seq<char>, Seq<Seq<char>>)>)
    requires
        forall|i: int| 0 <= i < meta.len() ==> list_ok((#[trigger] meta[i]).1),
    ensures
        split_values(joined_entries(meta)) == meta,
{
    assert forall|i: int| 0 <= i < meta.len() implies #[trigger] split_values(joined_entries(meta))[i]
        == meta[i] by {
        assert(list_ok(meta[i].1));
        lemma_split_join(meta[i].1, ';');
    }
    assert(split_values(joined_entries(meta)) =~= meta);
}

#[verifier::spinoff_prover]
#[verifier::rlimit(100)]
proof fn lemma_sample_fields(
    id: Seq<char>,
    meta: Seq<(Seq<char>, Seq<Seq<char>>)>,
    d: Seq<char>,
    doi: Option<Seq<char>>,
)
    requires
        sample_ok(id, meta, d, doi),
    ensures
        ({
            let fs = sample_fields(id, meta, d, doi);
            let j = joined_entries(meta);
            let tail = match doi {
                Some(v) => seq![("Description"@, d), ("DOI"@, v)],
                None => seq![("Description"@, d)],
            };
            &&& fs.len() > 0
            &&& forall|i: int| 0 <= i < fs.len() ==> writable_field(#[trigger] fs[i])
            &&& entries_of(fs) == seq![("ID"@, id)] + j + tail
            &&& distinct_keys(j)
            &&& lacks_key(j, "ID"@) && lacks_key(j, "Description"@) && lacks_key(j, "DOI"@)
            &&& fields_text(fs) == field_text(bare("ID"@, id)) + pairs_text(j) + seq![',']
                + field_text(quoted("Description"@, d)) + match doi {
                Some(v) => seq![','] + field_text(bare("DOI"@, v)),
                None => Seq::empty(),
            }
        }),
{
    tag_texts();
    let j = joined_entries(meta);
    let reserved = seq!["ID"@, "Description"@, "DOI"@];
    let f1 = bare("ID"@, id);
    let head = seq![f1];
    lemma_entries_one(f1);
    assert forall|a: int, b: int| 0 <= a < b < j.len() implies (#[trigger] j[a]).0 != (
    #[trigger] j[b]).0 by {
        assert(j[a].0 == meta[a].0 && j[b].0 == meta[b].0);
    }
    assert forall|i: int| 0 <= i < j.len() implies (#[trigger] j[i]).0 != "ID"@ && j[i].0
        != "Description"@ && j[i].0 != "DOI"@ by {
        assert(j[i].0 == meta[i].0);
        assert(meta[i].0 != reserved[0]);
        assert(meta[i].0 != reserved[1]);
        assert(meta[i].0 != reserved[2]);
    }
    assert forall|i: int| 0 <= i < j.len() implies lacks_key(entries_of(head), (#[trigger] j[i]).0) by {
        assert(j[i].0 != "ID"@);
    }
    lemma_entries_append(head, j);
    lemma_fields_text_append(head, j);
    let body = head + bare_fields(j);
    let f2 = quoted("Description"@, d);
    assert forall|i: int| 0 <= i < entries_of(body).len() implies (#[trigger] entries_of(body)[i]).0
        != "Description"@ by {
        if i >= 1 {
            assert(entries_of(body)[i] == j[i - 1]);
        }
    }
    lemma_entries_push(body, f2);
    lemma_fields_push(body, f2);
    let with_d = body.push(f2);
    match doi {
        Some(v) => {
            let f3 = bare("DOI"@, v);
            assert forall|i: int| 0 <= i < entries_of(with_d).len() implies (#[trigger] entries_of(
                with_d,
            )[i]).0 != "DOI"@ by {
                if 1 <= i < 1 + j.len() {
                    assert(entries_of(with_d)[i] == j[i - 1]);
                }
            }
            lemma_entries_push(with_d, f3);
            lemma_fields_push(with_d, f3);
            assert(entries_of(with_d.push(f3)) =~= seq![("ID"@, id)] + j + seq![("Description"@, d), ("DOI"@, v)]);
        },
        None => {
            assert(entries_of(with_d) =~= seq![("ID"@, id)] + j + seq![("Description"@, d)]);
        },
    }
    let fs = sample_fields(id, meta, d, doi);
    assert forall|i: int| 0 <= i < fs.len() implies writable_field(#[trigger] fs[i]) by {
        if i == 0 {
            assert(fs[i] == f1);
        } else if i < 1 + j.len() {
            assert(fs[i] == bare(j[i - 1].0, j[i - 1].1));
            assert(j[i - 1].1 == join(meta[i - 1].1, ';'));
            assert(list_ok(meta[i - 1].1));
            assert(j[i - 1].0 == meta[i - 1].0);
        } else if i == 1 + j.len() {
            assert(fs[i] == f2);
        } else {
            assert(fs[i] == bare("DOI"@, doi->Some_0));
        }
    }
    assert(fields_text(head) == field_text(f1));
}

#[verifier::rlimit(100)]
#[verifier::spinoff_prover]
proof fn lemma_sample_text(
    id: Seq<char>,
    meta: Seq<(Seq<char>, Seq<Seq<char>>)>,
    d: Seq<char>,
    doi: Option<Seq<char>>,
)
    requires
        sample_ok(id, meta, d, doi),
    ensures
        header_line_text(HeaderLineView::Sample { id, meta, description: d, doi }) == seq!['#', '#']
            + "SAMPLE"@ + seq!['='] + (seq!['<'] + fields_text(sample_fields(id, meta, d, doi))
            + seq!['>']),
{
    lemma_sample_fields(id, meta, d, doi);
    lemma_list_pairs_text(meta);
    assert("##SAMPLE=<ID="@ =~= seq!['#', '#'] + "SAMPLE"@ + seq!['='] + seq!['<'] + "ID"@ + seq!['='])
        by {
        reveal_strlit("##SAMPLE=<ID=");
        reveal_strlit("SAMPLE");
        reveal_strlit("ID");
    }
    assert(",Description=\""@ =~= seq![','] + "Description"@ + seq!['='] + seq!['"']) by {
        reveal_strlit(",Description=\"");
        reveal_strlit("Description");
    }
    assert(",DOI="@ =~= seq![','] + "DOI"@ + seq!['=']) by {
        reveal_strlit(",DOI=");
        reveal_strlit("DOI");
    }
    assert("\""@ =~= seq!['"']) by {
        reveal_strlit("\"");
    }
    assert(""@ =~= Seq::<char>::empty()) by {
        reveal_strlit("");
    }
    assert(">"@ =~= seq!['>']) by {
        reveal_strlit(">");
    }
    assert(header_line_text(HeaderLineView::Sample { id, meta, description: d, doi }) =~= seq![
        '#',
        '#',
    ] + "SAMPLE"@ + seq!['='] + (seq!['<'] + fields_text(sample_fields(id, meta, d, doi)) + seq![
        '>',
    ]));
}

#[verifier::spinoff_prover]
#[verifier::rlimit(100)]
proof fn lemma_sample_parse(
    id: Seq<char>,
    meta: Seq<(Seq<char>, Seq<Seq<char>>)>,
    d: Seq<char>,
    doi: Option<Seq<char>>,
)
    requires
        sample_ok(id, meta, d, doi),
    ensures
        sample_line_of(entries_of(sample_fields(id, meta, d, doi))) == Ok::<_, ErrorView>(
            HeaderLineView::Sample { id, meta, description: d, doi },
        ),
{
    tag_texts();
    lemma_sample_fields(id, meta, d, doi);
    let j = joined_entries(meta);
    let e1 = seq![("ID"@, id)];
    let tail = match doi {
        Some(v) => seq![("Description"@, d), ("DOI"@, v)],
        None => seq![("Description"@, d)],
    };
    let m = entries_of(sample_fields(id, meta, d, doi));
    assert(m == e1 + j + tail);
    let empty = Seq::<(Seq<char>, Seq<char>)>::empty();
    // lookups
    assert(tail.last() == tail[tail.len() - 1]);
    match doi {
        Some(v) => {
            assert(m.drop_last() =~= e1 + j + seq![("Description"@, d)]);
            assert(m.last() == ("DOI"@, v));
            assert((e1 + j + seq![("Description"@, d)]).drop_last() =~= e1 + j);
            assert((e1 + j + seq![("Description"@, d)]).last() == ("Description"@, d));
        },
        None => {
            assert(m.drop_last() =~= e1 + j);
            assert(m.last() == ("Description"@, d));
        },
    }
    lemma_lookup_append(e1, j, "ID"@);
    lemma_lookup_append(e1, j, "DOI"@);
    assert(e1.drop_last() =~= empty);
    assert(e1.last() == ("ID"@, id));
    assert(lookup(e1, "ID"@) == Some(id));
    assert(lookup(e1, "DOI"@) == lookup(e1.drop_last(), "DOI"@));
    assert(lookup(empty, "DOI"@) is None);
    assert(lookup(e1, "DOI"@) is None);
    let ejd = e1 + j + seq![("Description"@, d)];
    assert(ejd.drop_last() =~= e1 + j);
    assert(ejd.last() == ("Description"@, d));
    assert(lookup(ejd, "ID"@) == lookup(e1 + j, "ID"@));
    assert(lookup(ejd, "DOI"@) == lookup(e1 + j, "DOI"@));
    assert(lookup(ejd, "Description"@) == Some(d));
    match doi {
        Some(v) => {
            assert(m =~= ejd.push(("DOI"@, v)));
            assert(m.drop_last() =~= ejd);
            assert(lookup(m, "ID"@) == lookup(ejd, "ID"@));
            assert(lookup(m, "Description"@) == lookup(ejd, "Description"@));
        },
        None => {
            assert(m =~= ejd);
        },
    }
    assert(lookup(m, "ID"@) == Some(id));
    assert(lookup(m, "Description"@) == Some(d));
    assert(lookup(m, "DOI"@) == doi);
    // the attributes
    lemma_without_concat(e1 + j, tail, "ID"@);
    lemma_without_concat(e1, j, "ID"@);
    lemma_without_absent(j, "ID"@);
    assert(without_key(e1, "ID"@) == without_key(e1.drop_last(), "ID"@));
    assert(without_key(empty, "ID"@) == empty);
    assert(without_key(tail, "ID"@) == tail) by {
        assert forall|i: int| 0 <= i < tail.len() implies (#[trigger] tail[i]).0 != "ID"@ by {}
        lemma_without_absent(tail, "ID"@);
    }
    let w1 = without_key(m, "ID"@);
    assert(w1 =~= j + tail);
    lemma_without_concat(j, tail, "Description"@);
    lemma_without_absent(j, "Description"@);
    let t2 = match doi {
        Some(v) => seq![("DOI"@, v)],
        None => empty,
    };
    match doi {
        Some(v) => {
            let r = seq![("Description"@, d)];
            assert(r.drop_last() =~= empty);
            assert(r.last() == ("Description"@, d));
            assert(without_key(empty, "Description"@) == empty);
            assert(without_key(r, "Description"@) == without_key(r.drop_last(), "Description"@));
            assert(tail =~= r + seq![("DOI"@, v)]);
            lemma_without_concat(r, seq![("DOI"@, v)], "Description"@);
            assert(without_key(seq![("DOI"@, v)], "Description"@) =~= seq![("DOI"@, v)]) by {
                lemma_without_absent(seq![("DOI"@, v)], "Description"@);
            }
            assert(without_key(tail, "Description"@) =~= t2);
        },
        None => {
            assert(tail.drop_last() =~= empty);
            assert(without_key(empty, "Description"@) == empty);
            assert(without_key(tail, "Description"@) =~= t2);
        },
    }
    let w2 = without_key(w1, "Description"@);
    assert(w2 =~= j + t2);
    lemma_without_concat(j, t2, "DOI"@);
    lemma_without_absent(j, "DOI"@);
    match doi {
        Some(v) => {
            assert(t2.drop_last() =~= empty);
            assert(t2.last() == ("DOI"@, v));
            assert(without_key(empty, "DOI"@) == empty);
            assert(without_key(t2, "DOI"@) =~= empty);
        },
        None => {
            assert(without_key(empty, "DOI"@) == empty);
        },
    }
    let w3 = without_key(w2, "DOI"@);
    assert(w3 =~= j);
    lemma_split_values_joined(meta);
    assert forall|a: int, b: int| 0 <= a < b < meta.len() implies (#[trigger] meta[a]).0 != (
    #[trigger] meta[b]).0 by {}
    lemma_reinsert_distinct(meta);
}

/// A sample line reads back as itself.
proof fn lemma_sample_round_trip(
    id: Seq<char>,
    meta: Seq<(Seq<char>, Seq<Seq<char>>)>,
    d: Seq<char>,
    doi: Option<Seq<char>>,
)
    requires
        sample_ok(id, meta, d, doi),
    ensures
        header_line_of(header_line_text(HeaderLineView::Sample { id, meta, description: d, doi }))
            == Ok::<_, ErrorView>(HeaderLineView::Sample { id, meta, description: d, doi }),
{
    let fs = sample_fields(id, meta, d, doi);
    lemma_sample_fields(id, meta, d, doi);
    lemma_tokenize_fields(fs);
    let payload = seq!['<'] + fields_text(fs) + seq!['>'];
    lemma_tag_no_equals("SAMPLE"@);
    lemma_header_split("SAMPLE"@, payload);
    lemma_dispatch("SAMPLE"@, entries_of(fs));
    lemma_sample_text(id, meta, d, doi);
    lemma_sample_parse(id, meta, d, doi);
}

/// Whether the tags of an ALT line can be written and read back: at least
/// one, the others not empty, not a known tag's name and with no `:`, and
/// their text a bare value.
pub open spec fn alt_ok(ids: Seq<AltIdView>) -> bool {
    &&& ids.len() > 0
    &&& forall|i: int|
        0 <= i < ids.len() ==> match #[trigger] ids[i] {
            AltIdView::Other(s) => alt_id_of(s) == Ok::<_, ErrorView>(AltIdView::Other(s))
                && !s.contains(':'),
            _ => true,
        }
    &&& bare_ok(alt_ids_text(ids))
}

proof fn lemma_alt_id_round_trip(a: AltIdView)
    requires
        a matches AltIdView::Other(s) ==> alt_id_of(s) == Ok::<_, ErrorView>(a) && !s.contains(':'),
    ensures
        alt_id_of(alt_id_text(a)) == Ok::<_, ErrorView>(a),
        !alt_id_text(a).contains(':'),
{
    reveal_strlit("DEL");
    reveal_strlit("INS");
    reveal_strlit("DUP");
    reveal_strlit("INV");
    reveal_strlit("CNV");
    reveal_strlit("BND");
    assert("DEL"@ =~= seq!['D', 'E', 'L']);
    assert("INS"@ =~= seq!['I', 'N', 'S']);
    assert("DUP"@ =~= seq!['D', 'U', 'P']);
    assert("INV"@ =~= seq!['I', 'N', 'V']);
    assert("CNV"@ =~= seq!['C', 'N', 'V']);
    assert("BND"@ =~= seq!['B', 'N', 'D']);
    let t = alt_id_text(a);
    if !(a is Other) {
        assert(!t.contains(':')) by {
            if t.contains(':') {
                let i = choose|i: int| 0 <= i < t.len() && t[i] == ':';
            }
        }
    }
}

proof fn lemma_alt_pieces(ids: Seq<AltIdView>)
    requires
        forall|i: int|
            0 <= i < ids.len() ==> match #[trigger] ids[i] {
                AltIdView::Other(s) => alt_id_of(s) == Ok::<_, ErrorView>(AltIdView::Other(s))
                    && !s.contains(':'),
                _ => true,
            },
    ensures
        alt_ids_of_pieces(alt_texts(ids)) == Ok::<_, ErrorView>(ids),
        forall|i: int|
            0 <= i < ids.len() ==> !(#[trigger] alt_texts(ids)[i]).contains(
                ':',
            ),
    decreases ids.len(),
{
    let texts = alt_texts(ids);
    assert forall|i: int| 0 <= i < ids.len() implies !(#[trigger] texts[i]).contains(':') by {
        lemma_alt_id_round_trip(ids[i]);
    }
    if ids.len() > 0 {
        let init = ids.drop_last();
        assert forall|i: int| 0 <= i < init.len() implies match #[trigger] init[i] {
            AltIdView::Other(s) => alt_id_of(s) == Ok::<_, ErrorView>(AltIdView::Other(s))
                && !s.contains(':'),
            _ => true,
        } by {
            assert(init[i] == ids[i]);
        }
        lemma_alt_pieces(init);
        assert(texts.drop_last() =~= alt_texts(init));
        assert(ids.last() == ids[ids.len() - 1]);
        lemma_alt_id_round_trip(ids.last());
        assert(texts.last() == alt_id_text(ids.last()));
        assert(init.push(ids.last()) =~= ids);
    } else {
        assert(texts =~= Seq::<Seq<char>>::empty());
        assert(ids =~= Seq::<AltIdView>::empty());
    }
}

/// An ALT line reads back as itself.
#[verifier::spinoff_prover]
#[verifier::rlimit(100)]
proof fn lemma_alt_round_trip(ids: Seq<AltIdView>, d: Seq<char>)
    requires
        alt_ok(ids),
        quoted_ok(d),
    ensures
        header_line_of(header_line_text(HeaderLineView::Alt { id: ids, description: d })) == Ok::<
            _,
            ErrorView,
        >(HeaderLineView::Alt { id: ids, description: d }),
{
    tag_texts();
    let texts = alt_texts(ids);
    lemma_alt_pieces(ids);
    lemma_split_join(texts, ':');
    let f1 = bare("ID"@, alt_ids_text(ids));
    let f2 = quoted("Description"@, d);
    lemma_two_fields(f1, f2);
    let payload = seq!['<'] + fields_text(seq![f1].push(f2)) + seq!['>'];
    lemma_tag_no_equals("ALT"@);
    lemma_header_split("ALT"@, payload);
    lemma_dispatch("ALT"@, entries_of(seq![f1].push(f2)));
    assert("##ALT=<ID="@ =~= seq!['#', '#'] + "ALT"@ + seq!['='] + seq!['<'] + "ID"@ + seq!['='])
        by {
        reveal_strlit("##ALT=<ID=");
    }
    assert(",Description=\""@ =~= seq![','] + "Description"@ + seq!['='] + seq!['"']) by {
        reveal_strlit(",Description=\"");
    }
    assert("\">"@ =~= seq!['"', '>']) by {
        reveal_strlit("\">");
    }
    assert(header_line_text(HeaderLineView::Alt { id: ids, description: d }) =~= seq!['#', '#']
        + "ALT"@ + seq!['='] + payload);
}

/// Reading a header line, writing it and reading the text again gives the
/// same header line, for the kinds and values that `writes_back` admits.
/// (A META line never reads back: it is written without its values. An
/// ancestors PEDIGREE line neither: its pairs are written unseparated.)
pub proof fn lemma_header_line_round_trip(line: Seq<char>, h: HeaderLineView)
    requires
        header_line_of(line) == Ok::<_, ErrorView>(h),
        writes_back(h),
    ensures
        header_line_of(header_line_text(h)) == Ok::<_, ErrorView>(h),
{
    match h {
        HeaderLineView::Assembly(_) => lemma_whole_kind_round_trip(h),
        HeaderLineView::FileDate(_) => lemma_whole_kind_round_trip(h),
        HeaderLineView::PedigreeDB(_) => lemma_whole_kind_round_trip(h),
        HeaderLineView::Other { key, value } => lemma_other_round_trip(line, key, value),
        HeaderLineView::Filter { id, description } => lemma_filter_round_trip(id, description),
        HeaderLineView::Contig { id, species, other } => lemma_contig_round_trip(id, species, other),
        HeaderLineView::Sample { id, meta, description, doi } => lemma_sample_round_trip(
            id,
            meta,
            description,
            doi,
        ),
        HeaderLineView::Alt { id, description } => lemma_alt_round_trip(id, description),
        HeaderLineView::Format { id, number, typ, description } => lemma_format_round_trip(
            id,
            number,
            typ,
            description,
        ),
        HeaderLineView::Info { id, number, typ, description, source, version } =>
            lemma_info_round_trip(id, number, typ, description, source, version),
        HeaderLineView::Pedigree { id, relation } => match relation {
            PedigreeView::Original(o) => lemma_original_round_trip(id, o),
            PedigreeView::Parents(f, m) => lemma_parents_round_trip(id, f, m),
            PedigreeView::Ancestors(_) => {},
        },
        _ => {},
    }
}

} // verus!

//! The header: the version line, the typed header lines and the sample
//! column names.
use crate::body::dot;
use crate::error::{ErrorKind, ErrorView, VcfError};
use crate::ordered_map::{lookup, text_entries, text_map_entries, text_map_get};
use crate::text::{
    chars_of, decimal, decimal_string, has_prefix, parse_unsigned, range_equals, split,
    split_range, string_of, unsigned_of, views,
};
pub use crate::header_line::HeaderLine;
pub use crate::payload::{parse_header_payload, OTHER_KEY};
use linked_hash_map::LinkedHashMap;
use vstd::prelude::*;

verus! {

/// Whether `s` is exactly the literal `lit`.
pub(crate) fn str_is(s: &str, lit: &str) -> (b: bool)
    ensures
        b == (s@ == lit@),
{
    let v = chars_of(s);
    let p = chars_of(lit);
    assert(v@.subrange(0, v@.len() as int) =~= s@);
    range_equals(&v, 0, v.len(), &p)
}

/// A number of values that a FORMAT or INFO field holds.
#[derive(Clone, Copy, Debug, PartialEq, Eq, Structural)]
pub enum Number {
    /// A fixed count.
    Integer(u32),
    /// One value per alternate allele (`A`).
    Allele,
    /// One value per possible allele, the reference included (`R`).
    Reference,
    /// One value per possible genotype (`G`).
    Genotype,
    /// Varies, unknown or unbounded (`.`).
    Unknown,
}

/// The `Number` attribute read from `s`; an absent one is unknown.
pub open spec fn number_of(s: Option<Seq<char>>) -> Result<Number, ErrorView> {
    match s {
        None => Ok(Number::Unknown),
        Some(t) => if t == seq!['A'] {
            Ok(Number::Allele)
        } else if t == seq!['G'] {
            Ok(Number::Genotype)
        } else if t == seq!['R'] {
            Ok(Number::Reference)
        } else if t == dot() {
            Ok(Number::Unknown)
        } else {
            match unsigned_of(t, u32::MAX as nat) {
                Some(n) => Ok(Number::Integer(n as u32)),
                None => Err((ErrorKind::InvalidNumber, t)),
            }
        },
    }
}

pub open spec fn number_text(n: Number) -> Seq<char> {
    match n {
        Number::Allele => seq!['A'],
        Number::Genotype => seq!['G'],
        Number::Reference => seq!['R'],
        Number::Unknown => dot(),
        Number::Integer(k) => decimal(k as nat),
    }
}

/// A single-character string.
fn one_char(c: char) -> (r: String)
    ensures
        r@ == seq![c],
{
    let mut r = String::new();
    r.push(c);
    assert(r@ =~= seq![c]);
    r
}

/// Whether `s` is exactly the one character `c`.
fn is_char(s: &str, c: char) -> (b: bool)
    ensures
        b == (s@ == seq![c]),
{
    let v = chars_of(s);
    let b = v.len() == 1 && v[0] == c;
    assert(b ==> v@ =~= seq![c]);
    b
}

impl Number {
    pub fn new(number_str: Option<&str>) -> (r: Result<Number, VcfError>)
        ensures
            number_of(
                match number_str {
                    Some(s) => Some(s@),
                    None => None,
                },
            ) == match r {
                Ok(n) => Ok::<_, ErrorView>(n),
                Err(e) => Err(e@),
            },
    {
        match number_str {
            None => Ok(Number::Unknown),
            Some(s) => {
                if is_char(s, 'A') {
                    Ok(Number::Allele)
                } else if is_char(s, 'G') {
                    Ok(Number::Genotype)
                } else if is_char(s, 'R') {
                    Ok(Number::Reference)
                } else if is_char(s, '.') {
                    Ok(Number::Unknown)
                } else {
                    let v = chars_of(s);
                    assert(v@.subrange(0, v@.len() as int) =~= s@);
                    match parse_unsigned(&v, 0, v.len(), u32::MAX as u64) {
                        Some(n) => Ok(Number::Integer(n as u32)),
                        None => Err(VcfError::new(ErrorKind::InvalidNumber, s.to_owned())),
                    }
                }
            },
        }
    }

    pub fn to_string(&self) -> (r: String)
        ensures
            r@ == number_text(*self),
    {
        match self {
            Number::Allele => one_char('A'),
            Number::Genotype => one_char('G'),
            Number::Reference => one_char('R'),
            Number::Unknown => one_char('.'),
            Number::Integer(n) => decimal_string(*n as u64),
        }
    }
}

/// The possible values of the `Type` attribute of INFO lines.
#[derive(Clone, Copy, Debug, PartialEq, Eq, Structural)]
pub enum InfoType {
    Character,
    Flag,
    Float,
    Integer,
    String,
}

/// The INFO `Type` attribute read from `s`; an absent one is `String`.
pub open spec fn info_type_of(s: Option<Seq<char>>) -> Result<InfoType, ErrorView> {
    match s {
        None => Ok(InfoType::String),
        Some(t) => if t == "Character"@ {
            Ok(InfoType::Character)
        } else if t == "Flag"@ {
            Ok(InfoType::Flag)
        } else if t == "Float"@ {
            Ok(InfoType::Float)
        } else if t == "Integer"@ {
            Ok(InfoType::Integer)
        } else if t == "String"@ {
            Ok(InfoType::String)
        } else {
            Err((ErrorKind::InvalidInfoType, t))
        },
    }
}

pub open spec fn info_type_text(t: InfoType) -> Seq<char> {
    match t {
        InfoType::Character => "Character"@,
        InfoType::Flag => "Flag"@,
        InfoType::Float => "Float"@,
        InfoType::Integer => "Integer"@,
        InfoType::String => "String"@,
    }
}

impl InfoType {
    pub fn new(type_str: Option<&str>) -> (r: Result<InfoType, VcfError>)
        ensures
            info_type_of(
                match type_str {
                    Some(s) => Some(s@),
                    None => None,
                },
            ) == match r {
                Ok(t) => Ok::<_, ErrorView>(t),
                Err(e) => Err(e@),
            },
    {
        match type_str {
            None => Ok(InfoType::String),
            Some(s) => {
                if str_is(s, "Character") {
                    Ok(InfoType::Character)
                } else if str_is(s, "Flag") {
                    Ok(InfoType::Flag)
                } else if str_is(s, "Float") {
                    Ok(InfoType::Float)
                } else if str_is(s, "Integer") {
                    Ok(InfoType::Integer)
                } else if str_is(s, "String") {
                    Ok(InfoType::String)
                } else {
                    Err(VcfError::new(ErrorKind::InvalidInfoType, s.to_owned()))
                }
            },
        }
    }

    pub fn to_string(&self) -> (r: String)
        ensures
            r@ == info_type_text(*self),
    {
        match self {
            InfoType::Character => "Character".to_owned(),
            InfoType::Flag => "Flag".to_owned(),
            InfoType::Float => "Float".to_owned(),
            InfoType::Integer => "Integer".to_owned(),
            InfoType::String => "String".to_owned(),
        }
    }
}

/// The possible values of the `Type` attribute of FORMAT lines.
#[derive(Clone, Copy, Debug, PartialEq, Eq, Structural)]
pub enum FormatType {
    Character,
    Integer,
    Float,
    String,
}

/// The FORMAT `Type` attribute read from `s`; an absent one is `String`.
pub open spec fn format_type_of(s: Option<Seq<char>>) -> Result<FormatType, ErrorView> {
    match s {
        None => Ok(FormatType::String),
        Some(t) => if t == "Character"@ {
            Ok(FormatType::Character)
        } else if t == "Float"@ {
            Ok(FormatType::Float)
        } else if t == "Integer"@ {
            Ok(FormatType::Integer)
        } else if t == "String"@ {
            Ok(FormatType::String)
        } else {
            Err((ErrorKind::InvalidFormatType, t))
        },
    }
}

pub open spec fn format_type_text(t: FormatType) -> Seq<char> {
    match t {
        FormatType::Character => "Character"@,
        FormatType::Integer => "Integer"@,
        FormatType::Float => "Float"@,
        FormatType::String => "String"@,
    }
}

impl FormatType {
    pub fn new(type_str: Option<&str>) -> (r: Result<FormatType, VcfError>)
        ensures
            format_type_of(
                match type_str {
                    Some(s) => Some(s@),
                    None => None,
                },
            ) == match r {
                Ok(t) => Ok::<_, ErrorView>(t),
                Err(e) => Err(e@),
            },
    {
        match type_str {
            None => Ok(FormatType::String),
            Some(s) => {
                if str_is(s, "Character") {
                    Ok(FormatType::Character)
                } else if str_is(s, "Float") {
                    Ok(FormatType::Float)
                } else if str_is(s, "Integer") {
                    Ok(FormatType::Integer)
                } else if str_is(s, "String") {
                    Ok(FormatType::String)
                } else {
                    Err(VcfError::new(ErrorKind::InvalidFormatType, s.to_owned()))
                }
            },
        }
    }

    pub fn to_string(&self) -> (r: String)
        ensures
            r@ == format_type_text(*self),
    {
        match self {
            FormatType::Character => "Character".to_owned(),
            FormatType::Integer => "Integer".to_owned(),
            FormatType::Float => "Float".to_owned(),
            FormatType::String => "String".to_owned(),
        }
    }
}

/// The structural-variant tags of the ID of ALT lines.
#[derive(Debug, PartialEq)]
pub enum AltId {
    DEL,
    INS,
    DUP,
    INV,
    CNV,
    BND,
    /// For ambiguity codes and sub-types.
    Other(String),
}

/// The model of an ALT tag.
pub enum AltIdView {
    Del,
    Ins,
    Dup,
    Inv,
    Cnv,
    Bnd,
    Other(Seq<char>),
}

impl View for AltId {
    type V = AltIdView;

    open spec fn view(&self) -> AltIdView {
        match self {
            AltId::DEL => AltIdView::Del,
            AltId::INS => AltIdView::Ins,
            AltId::DUP => AltIdView::Dup,
            AltId::INV => AltIdView::Inv,
            AltId::CNV => AltIdView::Cnv,
            AltId::BND => AltIdView::Bnd,
            AltId::Other(s) => AltIdView::Other(s@),
        }
    }
}

/// The tag read from `s`.
pub open spec fn alt_id_of(s: Seq<char>) -> Result<AltIdView, ErrorView> {
    if s.len() == 0 {
        Err((ErrorKind::EmptyAltId, Seq::empty()))
    } else if s == "DEL"@ {
        Ok(AltIdView::Del)
    } else if s == "INS"@ {
        Ok(AltIdView::Ins)
    } else if s == "DUP"@ {
        Ok(AltIdView::Dup)
    } else if s == "INV"@ {
        Ok(AltIdView::Inv)
    } else if s == "CNV"@ {
        Ok(AltIdView::Cnv)
    } else if s == "BND"@ {
        Ok(AltIdView::Bnd)
    } else {
        Ok(AltIdView::Other(s))
    }
}

pub open spec fn alt_id_text(a: AltIdView) -> Seq<char> {
    match a {
        AltIdView::Del => "DEL"@,
        AltIdView::Ins => "INS"@,
        AltIdView::Dup => "DUP"@,
        AltIdView::Inv => "INV"@,
        AltIdView::Cnv => "CNV"@,
        AltIdView::Bnd => "BND"@,
        AltIdView::Other(s) => s,
    }
}

/// The tags read from each piece of `pieces`, or the first error.
pub open spec fn alt_ids_of_pieces(pieces: Seq<Seq<char>>) -> Result<Seq<AltIdView>, ErrorView>
    decreases pieces.len(),
{
    if pieces.len() == 0 {
        Ok(Seq::empty())
    } else {
        match alt_ids_of_pieces(pieces.drop_last()) {
            Err(e) => Err(e),
            Ok(ids) => match alt_id_of(pieces.last()) {
                Err(e) => Err(e),
                Ok(a) => Ok(ids.push(a)),
            },
        }
    }
}

/// The tags of a colon-separated ALT ID.
pub open spec fn alt_ids_of(s: Seq<char>) -> Result<Seq<AltIdView>, ErrorView> {
    alt_ids_of_pieces(split(s, ':'))
}

pub open spec fn alt_id_views(v: Seq<AltId>) -> Seq<AltIdView> {
    v.map_values(|a: AltId| a@)
}

impl AltId {
    pub fn new(id_str: &str) -> (r: Result<AltId, VcfError>)
        ensures
            alt_id_of(id_str@) == match r {
                Ok(a) => Ok::<_, ErrorView>(a@),
                Err(e) => Err(e@),
            },
    {
        if id_str.is_empty() {
            return Err(VcfError::new(ErrorKind::EmptyAltId, String::new()));
        }
        if str_is(id_str, "DEL") {
            Ok(AltId::DEL)
        } else if str_is(id_str, "INS") {
            Ok(AltId::INS)
        } else if str_is(id_str, "DUP") {
            Ok(AltId::DUP)
        } else if str_is(id_str, "INV") {
            Ok(AltId::INV)
        } else if str_is(id_str, "CNV") {
            Ok(AltId::CNV)
        } else if str_is(id_str, "BND") {
            Ok(AltId::BND)
        } else {
            Ok(AltId::Other(id_str.to_owned()))
        }
    }

    /// The tags of a colon-separated ID; an empty piece is an error.
    pub fn new_alt_ids(ids_str: &str) -> (r: Result<Vec<AltId>, VcfError>)
        ensures
            alt_ids_of(ids_str@) == match r {
                Ok(ids) => Ok::<_, ErrorView>(alt_id_views(ids@)),
                Err(e) => Err(e@),
            },
    {
        let v = chars_of(ids_str);
        let pieces = split_range(&v, 0, v.len(), ':');
        assert(v@.subrange(0, v@.len() as int) =~= ids_str@);
        let ghost ps = views(pieces@);
        let mut ids: Vec<AltId> = Vec::new();
        let mut i: usize = 0;
        assert(ps.take(0) =~= Seq::<Seq<char>>::empty());
        assert(alt_id_views(ids@) =~= Seq::<AltIdView>::empty());
        while i < pieces.len()
            invariant
                i <= pieces@.len(),
                ps == views(pieces@),
                ps == split(ids_str@, ':'),
                ids@.len() == i,
                alt_ids_of_pieces(ps.take(i as int)) == Ok::<_, ErrorView>(alt_id_views(ids@)),
            decreases pieces@.len() - i,
        {
            assert(ps.take(i + 1).drop_last() =~= ps.take(i as int));
            assert(ps.take(i + 1).last() == pieces@[i as int]@);
            let ghost old_ids = ids@;
            match AltId::new(pieces[i].as_str()) {
                Ok(a) => {
                    ids.push(a);
                    assert(alt_id_views(ids@) =~= alt_id_views(old_ids).push(ids@[i as int]@));
                },
                Err(e) => {
                    assert(alt_ids_of_pieces(ps.take(i + 1)) == Err::<Seq<AltIdView>, ErrorView>(e@));
                    proof {
                        lemma_alt_ids_error_persists(ps, i + 1);
                    }
                    return Err(e);
                },
            }
            i += 1;
        }
        assert(ps.take(i as int) =~= ps);
        Ok(ids)
    }

    pub fn to_string(&self) -> (r: String)
        ensures
            r@ == alt_id_text(self@),
    {
        match self {
            AltId::DEL => "DEL".to_owned(),
            AltId::INS => "INS".to_owned(),
            AltId::DUP => "DUP".to_owned(),
            AltId::INV => "INV".to_owned(),
            AltId::CNV => "CNV".to_owned(),
            AltId::BND => "BND".to_owned(),
            AltId::Other(s) => s.clone(),
        }
    }
}

proof fn lemma_alt_ids_error_persists(pieces: Seq<Seq<char>>, k: int)
    requires
        0 <= k <= pieces.len(),
        alt_ids_of_pieces(pieces.take(k)) is Err,
    ensures
        alt_ids_of_pieces(pieces) == alt_ids_of_pieces(pieces.take(k)),
    decreases pieces.len() - k,
{
    if k == pieces.len() {
        assert(pieces.take(k) =~= pieces);
    } else {
        assert(pieces.take(k + 1).drop_last() =~= pieces.take(k));
        lemma_alt_ids_error_persists(pieces, k + 1);
    }
}

/// The value under key `k` of `m`, which a header line kind requires.
pub open spec fn required(m: Seq<(Seq<char>, Seq<char>)>, k: Seq<char>) -> Result<Seq<char>, ErrorView> {
    match lookup(m, k) {
        Some(v) => Ok(v),
        None => Err((ErrorKind::ValueNotFound, k)),
    }
}

/// The value under `key` of a payload map, or the error that it is absent.
pub(crate) fn get_map_value(map: &LinkedHashMap<String, String>, key: &str) -> (r: Result<String, VcfError>)
    ensures
        required(text_entries(*map), key@) == match r {
            Ok(v) => Ok::<_, ErrorView>(v@),
            Err(e) => Err(e@),
        },
{
    match text_map_get(map, key) {
        Some(v) => Ok(v),
        None => Err(VcfError::new(ErrorKind::ValueNotFound, key.to_owned())),
    }
}

/// Whether `a` comes before `b` or equals it, comparing characters in turn.
pub open spec fn lex_le(a: Seq<char>, b: Seq<char>) -> bool
    decreases a.len(),
{
    if a.len() == 0 {
        true
    } else if b.len() == 0 {
        false
    } else if a[0] != b[0] {
        a[0] < b[0]
    } else {
        lex_le(a.drop_first(), b.drop_first())
    }
}

/// Where an entry with key `k` goes in the key-ordered `s`: before the first
/// entry whose key is not below `k`.
pub open spec fn insert_pos<V>(s: Seq<(Seq<char>, V)>, k: Seq<char>) -> nat
    decreases s.len(),
{
    if s.len() == 0 {
        0
    } else if lex_le(k, s[0].0) {
        0
    } else {
        1 + insert_pos(s.drop_first(), k)
    }
}

/// The entries of `s` ordered by key; entries with equal keys keep their order.
pub open spec fn sort_entries<V>(s: Seq<(Seq<char>, V)>) -> Seq<(Seq<char>, V)>
    decreases s.len(),
{
    if s.len() == 0 {
        s
    } else {
        let r = sort_entries(s.drop_last());
        r.insert(insert_pos(r, s.last().0) as int, s.last())
    }
}

pub open spec fn starts_with(s: Seq<char>, p: Seq<char>) -> bool {
    p.len() <= s.len() && s.take(p.len() as int) == p
}

/// The ancestors named in the key-ordered entries `s`: every key but `ID`
/// must start with `Name_`; the first that does not is the error.
pub open spec fn ancestors_of(s: Seq<(Seq<char>, Seq<char>)>) -> Result<Seq<Seq<char>>, ErrorView>
    decreases s.len(),
{
    if s.len() == 0 {
        Ok(Seq::empty())
    } else {
        match ancestors_of(s.drop_last()) {
            Err(e) => Err(e),
            Ok(vs) => if s.last().0 == "ID"@ {
                Ok(vs)
            } else if !starts_with(s.last().0, "Name_"@) {
                Err((ErrorKind::InvalidPedigreeName, s.last().0))
            } else {
                Ok(vs.push(s.last().1))
            },
        }
    }
}

/// The relation of a pedigree line.
#[derive(Debug, PartialEq)]
pub enum PedigreeType {
    Original(String),
    Parents { father_id: String, mother_id: String },
    Ancestors(Vec<String>),
}

/// The model of a pedigree relation.
pub enum PedigreeView {
    Original(Seq<char>),
    Parents(Seq<char>, Seq<char>),
    Ancestors(Seq<Seq<char>>),
}

impl View for PedigreeType {
    type V = PedigreeView;

    open spec fn view(&self) -> PedigreeView {
        match self {
            PedigreeType::Original(s) => PedigreeView::Original(s@),
            PedigreeType::Parents { father_id, mother_id } => PedigreeView::Parents(
                father_id@,
                mother_id@,
            ),
            PedigreeType::Ancestors(es) => PedigreeView::Ancestors(views(es@)),
        }
    }
}

/// The relation that the keys of payload map `m` select: `Original` first,
/// then `Father` or `Mother` (both then required), then `Name_1`.
pub open spec fn pedigree_of(m: Seq<(Seq<char>, Seq<char>)>) -> Result<PedigreeView, ErrorView> {
    if lookup(m, "Original"@) is Some {
        Ok(PedigreeView::Original(lookup(m, "Original"@)->Some_0))
    } else if lookup(m, "Father"@) is Some || lookup(m, "Mother"@) is Some {
        match required(m, "Father"@) {
            Err(e) => Err(e),
            Ok(f) => match required(m, "Mother"@) {
                Err(e) => Err(e),
                Ok(mo) => Ok(PedigreeView::Parents(f, mo)),
            },
        }
    } else if lookup(m, "Name_1"@) is Some {
        match ancestors_of(sort_entries(m)) {
            Err(e) => Err(e),
            Ok(vs) => Ok(PedigreeView::Ancestors(vs)),
        }
    } else {
        Err((ErrorKind::InvalidPedigree, Seq::empty()))
    }
}

/// The `Name_i=...` pairs of an ancestors relation, numbered from 0.
pub open spec fn ancestors_text(es: Seq<Seq<char>>) -> Seq<char>
    decreases es.len(),
{
    if es.len() == 0 {
        Seq::empty()
    } else {
        ancestors_text(es.drop_last()) + "Name_"@ + decimal((es.len() - 1) as nat) + "="@
            + es.last()
    }
}

/// The text of a relation. The pairs of an ancestors relation are written
/// with no separator and numbered from 0, so such a line does not read back
/// as the relation it was written from.
pub open spec fn pedigree_text(p: PedigreeView) -> Seq<char> {
    match p {
        PedigreeView::Original(s) => "Original="@ + s,
        PedigreeView::Parents(f, m) => "Father="@ + f + ",Mother="@ + m,
        PedigreeView::Ancestors(es) => ancestors_text(es),
    }
}

/// Whether `a` comes before `b` or equals it.
fn lex_le_exec(a: &String, b: &String) -> (r: bool)
    ensures
        r == lex_le(a@, b@),
{
    let x = chars_of(a.as_str());
    let y = chars_of(b.as_str());
    let mut i: usize = 0;
    assert(x@.skip(0) =~= x@);
    assert(y@.skip(0) =~= y@);
    while i < x.len() && i < y.len() && x[i] == y[i]
        invariant
            i <= x@.len(),
            i <= y@.len(),
            lex_le(a@, b@) == lex_le(x@.skip(i as int), y@.skip(i as int)),
            x@ == a@,
            y@ == b@,
        decreases x@.len() - i,
    {
        assert(x@.skip(i as int).drop_first() =~= x@.skip(i + 1));
        assert(y@.skip(i as int).drop_first() =~= y@.skip(i + 1));
        i += 1;
    }
    if i == x.len() {
        true
    } else if i == y.len() {
        false
    } else {
        assert(x@.skip(i as int)[0] == x@[i as int]);
        assert(y@.skip(i as int)[0] == y@[i as int]);
        x[i] < y[i]
    }
}

/// The entries of `es` ordered by key, as `sort_entries` orders them.
#[verifier::spinoff_prover]
fn sort_by_key(es: &Vec<(String, String)>) -> (r: Vec<(String, String)>)
    ensures
        crate::ordered_map::pair_views(r@) == sort_entries(crate::ordered_map::pair_views(es@)),
{
    let ghost pv = crate::ordered_map::pair_views(es@);
    let mut r: Vec<(String, String)> = Vec::new();
    let mut i: usize = 0;
    assert(pv.take(0) =~= Seq::<(Seq<char>, Seq<char>)>::empty());
    assert(crate::ordered_map::pair_views(r@) =~= Seq::<(Seq<char>, Seq<char>)>::empty());
    while i < es.len()
        invariant
            i <= es@.len(),
            pv == crate::ordered_map::pair_views(es@),
            crate::ordered_map::pair_views(r@) == sort_entries(pv.take(i as int)),
        decreases es@.len() - i,
    {
        let ghost rv = crate::ordered_map::pair_views(r@);
        assert(pv.take(i + 1).drop_last() =~= pv.take(i as int));
        assert(pv.take(i + 1).last() == pv[i as int]);
        let (k, v) = (es[i].0.clone(), es[i].1.clone());
        let mut p: usize = 0;
        assert(rv.skip(0) =~= rv);
        while p < r.len() && !lex_le_exec(&k, &r[p].0)
            invariant
                p <= r@.len(),
                rv == crate::ordered_map::pair_views(r@),
                insert_pos(rv, k@) == p + insert_pos(rv.skip(p as int), k@),
            decreases r@.len() - p,
        {
            assert(rv.skip(p as int).drop_first() =~= rv.skip(p + 1));
            p += 1;
        }
        assert(rv.skip(0) =~= rv);
        assert(insert_pos(rv, k@) == p);
        r.insert(p, (k, v));
        assert(crate::ordered_map::pair_views(r@) =~= rv.insert(p as int, (k@, v@)));
        i += 1;
    }
    assert(pv.take(i as int) =~= pv);
    r
}

impl PedigreeType {
    /// The relation that the keys of a PEDIGREE payload select.
    #[verifier::spinoff_prover]
    pub fn new(pedigree_map: &LinkedHashMap<String, String>) -> (r: Result<PedigreeType, VcfError>)
        ensures
            pedigree_of(text_entries(*pedigree_map)) == match r {
                Ok(p) => Ok::<_, ErrorView>(p@),
                Err(e) => Err(e@),
            },
    {
        if let Some(o) = text_map_get(pedigree_map, "Original") {
            return Ok(PedigreeType::Original(o));
        }
        let father = text_map_get(pedigree_map, "Father");
        let mother = text_map_get(pedigree_map, "Mother");
        if father.is_some() || mother.is_some() {
            let father_id = get_map_value(pedigree_map, "Father")?;
            let mother_id = get_map_value(pedigree_map, "Mother")?;
            return Ok(PedigreeType::Parents { father_id, mother_id });
        }
        if text_map_get(pedigree_map, "Name_1").is_none() {
            return Err(VcfError::new(ErrorKind::InvalidPedigree, String::new()));
        }
        let entries = text_map_entries(pedigree_map);
        let sorted = sort_by_key(&entries);
        let ghost sv = crate::ordered_map::pair_views(sorted@);
        let id = chars_of("ID");
        let name = chars_of("Name_");
        let mut result: Vec<String> = Vec::new();
        let mut i: usize = 0;
        assert(sv.take(0) =~= Seq::<(Seq<char>, Seq<char>)>::empty());
        assert(views(result@) =~= Seq::<Seq<char>>::empty());
        while i < sorted.len()
            invariant
                i <= sorted@.len(),
                sv == crate::ordered_map::pair_views(sorted@),
                sv == sort_entries(text_entries(*pedigree_map)),
                pedigree_of(text_entries(*pedigree_map)) == match ancestors_of(sv) {
                    Err(e) => Err(e),
                    Ok(vs) => Ok::<_, ErrorView>(PedigreeView::Ancestors(vs)),
                },
                id@ == "ID"@,
                name@ == "Name_"@,
                ancestors_of(sv.take(i as int)) == Ok::<_, ErrorView>(views(result@)),
            decreases sorted@.len() - i,
        {
            assert(sv.take(i + 1).drop_last() =~= sv.take(i as int));
            assert(sv.take(i + 1).last() == sv[i as int]);
            let key = chars_of(sorted[i].0.as_str());
            assert(key@.subrange(0, key@.len() as int) =~= key@);
            assert(key@ == sv[i as int].0);
            if !range_equals(&key, 0, key.len(), &id) {
                if !has_prefix(&key, 0, key.len(), &name) {
                    assert(!starts_with(key@, "Name_"@)) by {
                        if starts_with(key@, "Name_"@) {
                            assert(key@.take(name@.len() as int) =~= key@.subrange(0, name@.len() as int));
                        }
                    }
                    assert(ancestors_of(sv.take(i + 1)) == Err::<Seq<Seq<char>>, ErrorView>(
                        (ErrorKind::InvalidPedigreeName, key@),
                    ));
                    proof {
                        lemma_ancestors_error_persists(sv, i + 1);
                    }
                    return Err(VcfError::new(ErrorKind::InvalidPedigreeName, sorted[i].0.clone()));
                }
                assert(key@.take(name@.len() as int) =~= key@.subrange(0, name@.len() as int));
                let ghost old_result = result@;
                result.push(sorted[i].1.clone());
                assert(views(result@) =~= views(old_result).push(sv[i as int].1));
            }
            i += 1;
        }
        assert(sv.take(i as int) =~= sv);
        Ok(PedigreeType::Ancestors(result))
    }

    /// The text of the relation, as `pedigree_text` gives it.
    pub fn to_string(&self) -> (r: String)
        ensures
            r@ == pedigree_text(self@),
    {
        match self {
            PedigreeType::Original(s) => {
                let mut r = "Original=".to_owned();
                r.append(s.as_str());
                r
            },
            PedigreeType::Parents { father_id, mother_id } => {
                let mut r = "Father=".to_owned();
                r.append(father_id.as_str());
                r.append(",Mother=");
                r.append(mother_id.as_str());
                r
            },
            PedigreeType::Ancestors(es) => {
                let mut r = String::new();
                let mut i: usize = 0;
                assert(views(es@).take(0) =~= Seq::<Seq<char>>::empty());
                while i < es.len()
                    invariant
                        i <= es@.len(),
                        r@ == ancestors_text(views(es@).take(i as int)),
                    decreases es@.len() - i,
                {
                    let ghost after = views(es@).take(i + 1);
                    assert(after.drop_last() =~= views(es@).take(i as int));
                    r.append("Name_");
                    let t = decimal_string(i as u64);
                    r.append(t.as_str());
                    r.append("=");
                    r.append(es[i].as_str());
                    i += 1;
                    assert(r@ =~= ancestors_text(after));
                }
                assert(views(es@).take(i as int) =~= views(es@));
                r
            },
        }
    }
}

proof fn lemma_ancestors_error_persists(s: Seq<(Seq<char>, Seq<char>)>, k: int)
    requires
        0 <= k <= s.len(),
        ancestors_of(s.take(k)) is Err,
    ensures
        ancestors_of(s) == ancestors_of(s.take(k)),
    decreases s.len() - k,
{
    if k == s.len() {
        assert(s.take(k) =~= s);
    } else {
        assert(s.take(k + 1).drop_last() =~= s.take(k));
        lemma_ancestors_error_persists(s, k + 1);
    }
}

/// The start of the version line.
pub open spec fn version_marker() -> Seq<char> {
    "##fileformat="@
}

/// The version read from a version line: what follows the marker.
pub open spec fn version_of(line: Seq<char>) -> Result<Seq<char>, ErrorView> {
    if starts_with(line, version_marker()) {
        Ok(line.skip(version_marker().len() as int))
    } else {
        Err((ErrorKind::InvalidVersionLine, line))
    }
}

/// The file format version: the text after `##fileformat=`.
#[derive(Debug)]
pub struct Version {
    pub value: String,
}

impl Version {
    /// The version line.
    pub fn to_string(&self) -> (r: String)
        ensures
            r@ == version_marker() + self.value@,
    {
        let mut r = "##fileformat=".to_owned();
        r.append(self.value.as_str());
        r
    }
}

/// The header of a file.
#[derive(Debug)]
pub struct Header {
    /// The text after `##fileformat=`.
    pub version: Version,
    /// The other header lines, in file order.
    pub header_lines: Vec<HeaderLine>,
    /// The sample column names; empty when the file has no samples.
    pub column_names: Vec<String>,
}

impl Header {
    pub fn new(version: String, header_lines: Vec<HeaderLine>, column_names: Vec<String>) -> (h: Header)
        ensures
            h.version.value == version,
            h.header_lines == header_lines,
            h.column_names == column_names,
    {
        Header { version: Version { value: version }, header_lines, column_names }
    }
}

/// Reads the version from a version line such as `##fileformat=VCFv4.3`.
pub fn parse_version(version_line: &str) -> (r: Result<String, VcfError>)
    ensures
        version_of(version_line@) == match r {
            Ok(v) => Ok::<_, ErrorView>(v@),
            Err(e) => Err(e@),
        },
{
    let v = chars_of(version_line);
    let p = chars_of("##fileformat=");
    proof {
        if p@.len() <= v@.len() {
            assert(v@.subrange(0, p@.len() as int) =~= v@.take(p@.len() as int));
        }
    }
    if !has_prefix(&v, 0, v.len(), &p) {
        return Err(VcfError::new(ErrorKind::InvalidVersionLine, version_line.to_owned()));
    }
    assert(v@.subrange(p@.len() as int, v@.len() as int) =~= v@.skip(p@.len() as int));
    Ok(string_of(&v, p.len(), v.len()))
}

/// The start of the column line: the eight fixed columns.
pub open spec fn columns_marker() -> Seq<char> {
    "#CHROM\tPOS\tID\tREF\tALT\tQUAL\tFILTER\tINFO"@
}

/// The first name of `names` that repeats an earlier one, if any.
pub open spec fn first_repeat(names: Seq<Seq<char>>) -> Option<Seq<char>>
    decreases names.len(),
{
    if names.len() == 0 {
        None
    } else {
        match first_repeat(names.drop_last()) {
            Some(n) => Some(n),
            None => if names.drop_last().contains(names.last()) {
                Some(names.last())
            } else {
                None
            },
        }
    }
}

/// The text between the fixed columns and the sample names.
pub open spec fn format_marker() -> Seq<char> {
    "\tFORMAT"@
}

/// The sample names, or the errors for an empty or repeated name.
pub open spec fn checked_names(names: Seq<Seq<char>>) -> Result<Seq<Seq<char>>, ErrorView> {
    if exists|i: int| 0 <= i < names.len() && (#[trigger] names[i]).len() == 0 {
        Err((ErrorKind::EmptyField, "sample name"@))
    } else {
        match first_repeat(names) {
            Some(n) => Err((ErrorKind::DuplicateSampleName, n)),
            None => Ok(names),
        }
    }
}

/// The sample names read from a column line: after the fixed columns,
/// nothing, or exactly a tab, `FORMAT` and then one or more tab-separated
/// names, none empty and no two equal.
pub open spec fn column_names_of(line: Seq<char>) -> Result<Seq<Seq<char>>, ErrorView> {
    if !starts_with(line, columns_marker()) {
        Err((ErrorKind::InvalidColumnsLine, line))
    } else {
        let rest = line.skip(columns_marker().len() as int);
        if rest.len() == 0 {
            Ok(Seq::empty())
        } else if !starts_with(rest, format_marker()) {
            Err((ErrorKind::UnexpectedColumn, rest))
        } else {
            let after = rest.skip(format_marker().len() as int);
            if after.len() == 0 {
                Err((ErrorKind::EmptyField, "sample name"@))
            } else if after[0] != '\t' {
                Err((ErrorKind::UnexpectedColumn, rest))
            } else {
                checked_names(split(after.skip(1), '\t'))
            }
        }
    }
}

/// Reads the sample names of the column line, such as
/// `#CHROM POS ID REF ALT QUAL FILTER INFO FORMAT NA00001 NA00002` (tab-separated).
#[verifier::spinoff_prover]
pub fn parse_column_names(column_line: &str) -> (r: Result<Vec<String>, VcfError>)
    ensures
        column_names_of(column_line@) == match r {
            Ok(names) => Ok::<_, ErrorView>(views(names@)),
            Err(e) => Err(e@),
        },
{
    let v = chars_of(column_line);
    let n = v.len();
    let p = chars_of("#CHROM\tPOS\tID\tREF\tALT\tQUAL\tFILTER\tINFO");
    proof {
        if p@.len() <= v@.len() {
            assert(v@.subrange(0, p@.len() as int) =~= v@.take(p@.len() as int));
        }
    }
    if !has_prefix(&v, 0, n, &p) {
        return Err(VcfError::new(ErrorKind::InvalidColumnsLine, column_line.to_owned()));
    }
    let a = p.len();
    let ghost rest = v@.skip(a as int);
    assert(v@.subrange(a as int, n as int) =~= rest);
    if a == n {
        let r: Vec<String> = Vec::new();
        assert(views(r@) =~= Seq::<Seq<char>>::empty());
        return Ok(r);
    }
    let f = chars_of("\tFORMAT");
    proof {
        if a + f@.len() <= n {
            assert(v@.subrange(a as int, a + f@.len()) =~= rest.take(f@.len() as int));
        }
    }
    if !has_prefix(&v, a, n, &f) {
        return Err(VcfError::new(ErrorKind::UnexpectedColumn, string_of(&v, a, n)));
    }
    let b = a + f.len();
    let ghost after = rest.skip(f@.len() as int);
    assert(v@.subrange(b as int, n as int) =~= after);
    if b == n {
        return Err(VcfError::new(ErrorKind::EmptyField, "sample name".to_owned()));
    }
    if v[b] != '\t' {
        return Err(VcfError::new(ErrorKind::UnexpectedColumn, string_of(&v, a, n)));
    }
    assert(v@.subrange(b + 1, n as int) =~= after.skip(1));
    let names = split_range(&v, b + 1, n, '\t');
    let ghost ns = views(names@);
    assert(column_names_of(column_line@) == checked_names(ns));
    let mut k: usize = 0;
    while k < names.len()
        invariant
            k <= names@.len(),
            ns == views(names@),
            column_names_of(column_line@) == checked_names(ns),
            forall|m: int| 0 <= m < k ==> (#[trigger] ns[m]).len() > 0,
        decreases names@.len() - k,
    {
        if names[k].as_str().is_empty() {
            assert(ns[k as int].len() == 0);
            return Err(VcfError::new(ErrorKind::EmptyField, "sample name".to_owned()));
        }
        k += 1;
    }
    assert(!(exists|m: int| 0 <= m < ns.len() && (#[trigger] ns[m]).len() == 0));
    let mut j: usize = 0;
    assert(ns.take(0) =~= Seq::<Seq<char>>::empty());
    assert(column_names_of(column_line@) == match first_repeat(ns) {
        Some(n) => Err((ErrorKind::DuplicateSampleName, n)),
        None => Ok::<_, ErrorView>(ns),
    });
    while j < names.len()
        invariant
            j <= names@.len(),
            ns == views(names@),
            column_names_of(column_line@) == match first_repeat(ns) {
                Some(n) => Err((ErrorKind::DuplicateSampleName, n)),
                None => Ok::<_, ErrorView>(ns),
            },
            first_repeat(ns.take(j as int)) is None,
        decreases names@.len() - j,
    {
        assert(ns.take(j + 1).drop_last() =~= ns.take(j as int));
        assert(ns.take(j + 1).last() == ns[j as int]);
        let mut i: usize = 0;
        while i < j
            invariant
                i <= j < names@.len(),
                ns == views(names@),
                column_names_of(column_line@) == match first_repeat(ns) {
                    Some(n) => Err((ErrorKind::DuplicateSampleName, n)),
                    None => Ok::<_, ErrorView>(ns),
                },
                first_repeat(ns.take(j as int)) is None,
                forall|k: int| 0 <= k < i ==> ns[k] != ns[j as int],
            decreases j - i,
        {
            if names[i] == names[j] {
                assert(ns[i as int] == ns[j as int]);
                assert(ns.take(j as int)[i as int] == ns[j as int]);
                assert(ns.take(j + 1).drop_last() =~= ns.take(j as int));
                assert(ns.take(j + 1).last() == ns[j as int]);
                assert(ns.take(j + 1).drop_last().contains(ns.take(j + 1).last()));
                assert(first_repeat(ns.take(j + 1)) == Some(ns[j as int]));
                proof {
                    lemma_repeat_persists(ns, j + 1);
                }
                return Err(VcfError::new(ErrorKind::DuplicateSampleName, names[j].clone()));
            }
            i += 1;
        }
        assert(!ns.take(j as int).contains(ns[j as int])) by {
            if ns.take(j as int).contains(ns[j as int]) {
                let k = choose|k: int| 0 <= k < j && ns.take(j as int)[k] == ns[j as int];
                assert(ns[k] == ns[j as int]);
            }
        }
        j += 1;
    }
    assert(ns.take(j as int) =~= ns);
    Ok(names)
}

proof fn lemma_repeat_persists(names: Seq<Seq<char>>, k: int)
    requires
        0 <= k <= names.len(),
        first_repeat(names.take(k)) is Some,
    ensures
        first_repeat(names) == first_repeat(names.take(k)),
    decreases names.len() - k,
{
    if k == names.len() {
        assert(names.take(k) =~= names);
    } else {
        assert(names.take(k + 1).drop_last() =~= names.take(k));
        lemma_repeat_persists(names, k + 1);
    }
}

} // verus!

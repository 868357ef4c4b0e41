//! The tokenizer of header payloads: `<key=value,...>` lists with bare,
//! quoted and bracketed values, or a bare string kept whole.
use crate::error::{ErrorKind, ErrorView, VcfError};
use crate::ordered_map::{insert_entry, new_text_map, text_entries, text_map_insert, without_key};
use crate::text::{chars_of, string_of};
use linked_hash_map::LinkedHashMap;
use vstd::prelude::*;

verus! {

/// The key under which a payload without `=` is kept whole.
pub const OTHER_KEY: &'static str = "Value";

/// How a value was written in a payload.
#[derive(Clone, Copy, Debug, PartialEq, Eq, Structural)]
pub enum Enclosure {
    /// Up to the next `,` or the end of the payload.
    Bare,
    /// Between double quotes; a quote after a backslash does not close it.
    Quoted,
    /// Between `[` and `]`.
    Bracketed,
}

/// A `key=value` pair as it was written in a payload.
pub struct Field {
    pub key: Seq<char>,
    pub value: Seq<char>,
    pub enclosure: Enclosure,
}

/// The state of the tokenizer between two characters.
#[derive(Clone, Copy, Debug, PartialEq, Eq, Structural)]
pub enum ScanMode {
    /// Reading a key, up to `=`.
    Key,
    /// Reading a bare value, up to `,`.
    Value,
    /// Reading a value enclosed by the given character; the second is the
    /// previous character, with a pair of backslashes counting as none.
    Enclosed(char, char),
    /// After a closing quote or bracket: a `,` or the end must follow.
    QuoteEnded,
}

/// The tokenizer's state: the mode, the key and value being read and the
/// pairs completed so far.
pub struct Scan {
    pub mode: ScanMode,
    pub key: Seq<char>,
    pub value: Seq<char>,
    pub fields: Seq<Field>,
}

pub open spec fn start_scan() -> Scan {
    Scan { mode: ScanMode::Key, key: Seq::empty(), value: Seq::empty(), fields: Seq::empty() }
}

pub open spec fn enclosure_of(delimiter: char) -> Enclosure {
    if delimiter == '"' {
        Enclosure::Quoted
    } else {
        Enclosure::Bracketed
    }
}

/// Whether character `c` closes a value enclosed by `delimiter`, after `prev`.
pub open spec fn closes(delimiter: char, prev: char, c: char) -> bool {
    (delimiter == '"' && c == '"' && prev != '\\') || (delimiter == '[' && c == ']')
}

/// The previous character to remember after `c`, where `prev` came before.
pub open spec fn next_prev(prev: char, c: char) -> char {
    if c == '\\' && prev == '\\' {
        '_'
    } else {
        c
    }
}

/// Completes the pair being read; `p` is the payload, for the error.
pub open spec fn finish(p: Seq<char>, st: Scan, enclosure: Enclosure) -> Result<
    Seq<Field>,
    ErrorView,
> {
    if st.key.len() == 0 {
        Err((ErrorKind::EmptyKey, p))
    } else if st.value.len() == 0 {
        Err((ErrorKind::EmptyValue, p))
    } else {
        Ok(st.fields.push(Field { key: st.key, value: st.value, enclosure }))
    }
}

/// One step of the tokenizer on character `c`.
#[verifier::opaque]
pub open spec fn step(p: Seq<char>, st: Scan, c: char) -> Result<Scan, ErrorView> {
    match st.mode {
        ScanMode::Key => if c == '=' {
            Ok(Scan { mode: ScanMode::Value, key: st.key, value: Seq::empty(), fields: st.fields })
        } else {
            Ok(Scan { mode: ScanMode::Key, key: st.key.push(c), value: st.value, fields: st.fields })
        },
        ScanMode::Value => if c == ',' {
            match finish(p, st, Enclosure::Bare) {
                Ok(fs) => Ok(
                    Scan { mode: ScanMode::Key, key: Seq::empty(), value: Seq::empty(), fields: fs },
                ),
                Err(e) => Err(e),
            }
        } else if c == '"' || c == '[' {
            if st.value.len() == 0 {
                Ok(Scan { mode: ScanMode::Enclosed(c, '_'), key: st.key, value: st.value, fields: st.fields })
            } else {
                Err((ErrorKind::InvalidCharacter(c), p))
            }
        } else {
            Ok(Scan { mode: ScanMode::Value, key: st.key, value: st.value.push(c), fields: st.fields })
        },
        ScanMode::Enclosed(d, prev) => if closes(d, prev, c) {
            match finish(p, st, enclosure_of(d)) {
                Ok(fs) => Ok(
                    Scan {
                        mode: ScanMode::QuoteEnded,
                        key: Seq::empty(),
                        value: Seq::empty(),
                        fields: fs,
                    },
                ),
                Err(e) => Err(e),
            }
        } else {
            Ok(
                Scan {
                    mode: ScanMode::Enclosed(d, next_prev(prev, c)),
                    key: st.key,
                    value: st.value.push(c),
                    fields: st.fields,
                },
            )
        },
        ScanMode::QuoteEnded => if c == ',' {
            Ok(Scan { mode: ScanMode::Key, key: Seq::empty(), value: Seq::empty(), fields: st.fields })
        } else {
            Err((ErrorKind::TextAfterQuote, p))
        },
    }
}

/// The tokenizer's state after reading `s` from `st`.
pub open spec fn scan_from(p: Seq<char>, st: Scan, s: Seq<char>) -> Result<Scan, ErrorView>
    decreases s.len(),
{
    if s.len() == 0 {
        Ok(st)
    } else {
        match scan_from(p, st, s.drop_last()) {
            Ok(st2) => step(p, st2, s.last()),
            Err(e) => Err(e),
        }
    }
}

/// The pairs read once the payload ends in state `st`.
pub open spec fn at_end(p: Seq<char>, st: Scan) -> Result<Seq<Field>, ErrorView> {
    match st.mode {
        ScanMode::Key => Ok(st.fields),
        ScanMode::QuoteEnded => Ok(st.fields),
        ScanMode::Value => if st.value.len() == 0 {
            Err((ErrorKind::EmptyValue, p))
        } else {
            finish(p, st, Enclosure::Bare)
        },
        ScanMode::Enclosed(_, _) => Err((ErrorKind::UnbalancedQuote, p)),
    }
}

/// Whether `p` is wrapped in angle brackets, or has only one of them.
pub open spec fn has_bracket(p: Seq<char>) -> bool {
    p.len() > 0 && (p[0] == '<' || p.last() == '>')
}

pub open spec fn has_both_brackets(p: Seq<char>) -> bool {
    p.len() > 0 && p[0] == '<' && p.last() == '>'
}

/// The payload without its angle brackets.
pub open spec fn payload_body(p: Seq<char>) -> Seq<char> {
    if has_bracket(p) {
        p.subrange(1, p.len() - 1)
    } else {
        p
    }
}

/// The pairs written in payload `p`, in order.
pub open spec fn tokenize(p: Seq<char>) -> Result<Seq<Field>, ErrorView> {
    let body = payload_body(p);
    if has_bracket(p) && !has_both_brackets(p) {
        Err((ErrorKind::UnbalancedBrackets, p))
    } else if body.len() == 0 {
        Err((ErrorKind::EmptyPayload, Seq::empty()))
    } else if !body.contains('=') {
        Ok(seq![Field { key: OTHER_KEY@, value: body, enclosure: Enclosure::Bare }])
    } else {
        scan_result(body)
    }
}

/// The pairs that the state machine reads from `body`.
pub open spec fn scan_result(body: Seq<char>) -> Result<Seq<Field>, ErrorView> {
    match scan_from(body, start_scan(), body) {
        Ok(st) => at_end(body, st),
        Err(e) => Err(e),
    }
}

/// The map that a sequence of pairs gives: inserted in order, a later pair
/// replacing an earlier one under the same key.
pub open spec fn entries_of(fields: Seq<Field>) -> Seq<(Seq<char>, Seq<char>)>
    decreases fields.len(),
{
    if fields.len() == 0 {
        Seq::empty()
    } else {
        insert_entry(entries_of(fields.drop_last()), fields.last().key, fields.last().value)
    }
}

/// The map that payload `p` gives.
pub open spec fn payload_entries(p: Seq<char>) -> Result<Seq<(Seq<char>, Seq<char>)>, ErrorView> {
    match tokenize(p) {
        Ok(fields) => Ok(entries_of(fields)),
        Err(e) => Err(e),
    }
}

/// An error met on a prefix of the input is the result of the whole scan.
pub proof fn lemma_scan_error_persists(p: Seq<char>, st: Scan, s: Seq<char>, k: int)
    requires
        0 <= k <= s.len(),
        scan_from(p, st, s.take(k)) is Err,
    ensures
        scan_from(p, st, s) == scan_from(p, st, s.take(k)),
    decreases s.len() - k,
{
    if k == s.len() {
        assert(s.take(k) =~= s);
    } else {
        assert(s.take(k + 1).drop_last() =~= s.take(k));
        lemma_scan_error_persists(p, st, s, k + 1);
    }
}

/// The positions that `parse_header_payload` keeps of the pair being read.
struct Cursor {
    mode: ScanMode,
    key_start: usize,
    key_end: usize,
    value_start: usize,
}

/// The tokenizer's state that a cursor stands for at position `i` of `v`.
spec fn held_scan(v: Seq<char>, i: int, c: Cursor, fields: Seq<Field>) -> Scan {
    Scan {
        mode: c.mode,
        key: match c.mode {
            ScanMode::Key => v.subrange(c.key_start as int, i),
            ScanMode::QuoteEnded => Seq::empty(),
            _ => v.subrange(c.key_start as int, c.key_end as int),
        },
        value: match c.mode {
            ScanMode::Value => v.subrange(c.value_start as int, i),
            ScanMode::Enclosed(_, _) => v.subrange(c.value_start as int, i),
            _ => Seq::empty(),
        },
        fields,
    }
}

/// Whether the positions of a cursor are in order at position `i`.
spec fn cursor_ok(lo: int, i: int, c: Cursor) -> bool {
    match c.mode {
        ScanMode::Key => lo <= c.key_start <= i,
        ScanMode::QuoteEnded => true,
        _ => lo <= c.key_start <= c.key_end < c.value_start <= i,
    }
}

fn payload_error(kind: ErrorKind, v: &Vec<char>, lo: usize, hi: usize) -> (e: VcfError)
    requires
        lo <= hi <= v@.len(),
    ensures
        e@ == (kind, v@.subrange(lo as int, hi as int)),
{
    VcfError::new(kind, string_of(v, lo, hi))
}

/// Inserts the pair that the cursor has read, up to position `i`.
fn complete_pair(
    v: &Vec<char>,
    lo: usize,
    hi: usize,
    i: usize,
    cur: &Cursor,
    enclosure: Enclosure,
    map: &mut LinkedHashMap<String, String>,
    fields: &mut Ghost<Seq<Field>>,
) -> (r: Result<(), VcfError>)
    requires
        lo <= i <= hi <= v@.len(),
        cursor_ok(lo as int, i as int, *cur),
        cur.mode is Value || cur.mode is Enclosed,
        text_entries(*old(map)) == entries_of(old(fields)@),
    ensures
        finish(v@.subrange(lo as int, hi as int), held_scan(v@, i as int, *cur, old(fields)@), enclosure)
            == match r {
            Ok(_) => Ok::<_, ErrorView>(final(fields)@),
            Err(e) => Err(e@),
        },
        text_entries(*final(map)) == entries_of(final(fields)@),
{
    let ghost st = held_scan(v@, i as int, *cur, fields@);
    if cur.key_end == cur.key_start {
        return Err(payload_error(ErrorKind::EmptyKey, v, lo, hi));
    }
    if i == cur.value_start {
        return Err(payload_error(ErrorKind::EmptyValue, v, lo, hi));
    }
    let k = string_of(v, cur.key_start, cur.key_end);
    let val = string_of(v, cur.value_start, i);
    text_map_insert(map, k, val);
    proof {
        let f = Field { key: st.key, value: st.value, enclosure };
        assert(fields@.push(f).drop_last() =~= fields@);
        fields@ = fields@.push(f);
    }
    Ok(())
}

/// Reads character `i` of `v`, as `step` does.
#[verifier::spinoff_prover]
fn scan_char(
    v: &Vec<char>,
    lo: usize,
    hi: usize,
    i: usize,
    cur: &mut Cursor,
    map: &mut LinkedHashMap<String, String>,
    fields: &mut Ghost<Seq<Field>>,
) -> (r: Result<(), VcfError>)
    requires
        lo <= i < hi <= v@.len(),
        cursor_ok(lo as int, i as int, *old(cur)),
        text_entries(*old(map)) == entries_of(old(fields)@),
    ensures
        step(v@.subrange(lo as int, hi as int), held_scan(v@, i as int, *old(cur), old(fields)@), v@[i as int])
            == match r {
            Ok(_) => Ok::<_, ErrorView>(held_scan(v@, i + 1, *final(cur), final(fields)@)),
            Err(e) => Err(e@),
        },
        r is Ok ==> cursor_ok(lo as int, i + 1, *final(cur)),
        text_entries(*final(map)) == entries_of(final(fields)@),
{
    reveal(step);
    let c = v[i];
    let ghost body = v@.subrange(lo as int, hi as int);
    let ghost st = held_scan(v@, i as int, *cur, fields@);
    match cur.mode {
        ScanMode::Key => {
            if c == '=' {
                cur.key_end = i;
                cur.value_start = i + 1;
                cur.mode = ScanMode::Value;
                assert(v@.subrange(i + 1, i + 1) =~= Seq::<char>::empty());
            } else {
                assert(v@.subrange(cur.key_start as int, i + 1) =~= v@.subrange(
                    cur.key_start as int,
                    i as int,
                ).push(c));
            }
            assert(step(body, st, c) == Ok::<_, ErrorView>(held_scan(v@, i + 1, *cur, fields@)));
            Ok(())
        },
        ScanMode::Value => {
            if c == ',' {
                complete_pair(v, lo, hi, i, cur, Enclosure::Bare, map, fields)?;
                cur.key_start = i + 1;
                cur.mode = ScanMode::Key;
                assert(v@.subrange(i + 1, i + 1) =~= Seq::<char>::empty());
                assert(step(body, st, c) == Ok::<_, ErrorView>(held_scan(v@, i + 1, *cur, fields@)));
                Ok(())
            } else if c == '"' || c == '[' {
                if i != cur.value_start {
                    return Err(payload_error(ErrorKind::InvalidCharacter(c), v, lo, hi));
                }
                assert(v@.subrange(i as int, i as int) =~= Seq::<char>::empty());
                cur.value_start = i + 1;
                cur.mode = ScanMode::Enclosed(c, '_');
                assert(v@.subrange(i + 1, i + 1) =~= Seq::<char>::empty());
                assert(step(body, st, c) == Ok::<_, ErrorView>(held_scan(v@, i + 1, *cur, fields@)));
                Ok(())
            } else {
                assert(v@.subrange(cur.value_start as int, i + 1) =~= v@.subrange(
                    cur.value_start as int,
                    i as int,
                ).push(c));
                assert(step(body, st, c) == Ok::<_, ErrorView>(held_scan(v@, i + 1, *cur, fields@)));
                Ok(())
            }
        },
        ScanMode::Enclosed(d, prev) => {
            if (d == '"' && c == '"' && prev != '\\') || (d == '[' && c == ']') {
                let enclosure = if d == '"' {
                    Enclosure::Quoted
                } else {
                    Enclosure::Bracketed
                };
                complete_pair(v, lo, hi, i, cur, enclosure, map, fields)?;
                cur.mode = ScanMode::QuoteEnded;
                assert(step(body, st, c) == Ok::<_, ErrorView>(held_scan(v@, i + 1, *cur, fields@)));
                Ok(())
            } else {
                let np = if c == '\\' && prev == '\\' {
                    '_'
                } else {
                    c
                };
                cur.mode = ScanMode::Enclosed(d, np);
                assert(v@.subrange(cur.value_start as int, i + 1) =~= v@.subrange(
                    cur.value_start as int,
                    i as int,
                ).push(c));
                assert(step(body, st, c) == Ok::<_, ErrorView>(held_scan(v@, i + 1, *cur, fields@)));
                Ok(())
            }
        },
        ScanMode::QuoteEnded => {
            if c == ',' {
                cur.key_start = i + 1;
                cur.mode = ScanMode::Key;
                assert(v@.subrange(i + 1, i + 1) =~= Seq::<char>::empty());
                assert(step(body, st, c) == Ok::<_, ErrorView>(held_scan(v@, i + 1, *cur, fields@)));
                Ok(())
            } else {
                Err(payload_error(ErrorKind::TextAfterQuote, v, lo, hi))
            }
        },
    }
}

/// Parses the payload of a header line into its `key=value` pairs, in
/// order. A payload without `=` is kept whole under `OTHER_KEY`. A key given
/// twice keeps the later value.
pub fn parse_header_payload(payload: &str) -> (r: Result<LinkedHashMap<String, String>, VcfError>)
    ensures
        match r {
            Ok(m) => payload_entries(payload@) == Ok::<_, ErrorView>(text_entries(m)),
            Err(e) => payload_entries(payload@) == Err::<Seq<(Seq<char>, Seq<char>)>, _>(e@),
        },
{
    let v = chars_of(payload);
    let n = v.len();
    let ghost p = v@;
    let starts = n > 0 && v[0] == '<';
    let ends = n > 0 && v[n - 1] == '>';
    let mut lo: usize = 0;
    let mut hi: usize = n;
    if starts || ends {
        if !(starts && ends) {
            let e = payload_error(ErrorKind::UnbalancedBrackets, &v, 0, n);
            assert(v@.subrange(0, n as int) =~= p);
            return Err(e);
        }
        lo = 1;
        hi = n - 1;
    }
    let ghost body = v@.subrange(lo as int, hi as int);
    assert(body =~= payload_body(p));
    if lo == hi {
        return Err(VcfError::new(ErrorKind::EmptyPayload, String::new()));
    }
    let mut map = new_text_map();
    let mut j = lo;
    while j < hi && v[j] != '='
        invariant
            lo <= j <= hi <= v@.len(),
            forall|k: int| lo <= k < j ==> v@[k] != '=',
        decreases hi - j,
    {
        j += 1;
    }
    if j == hi {
        assert(!body.contains('=')) by {
            if body.contains('=') {
                let k = choose|k: int| 0 <= k < body.len() && body[k] == '=';
                assert(v@[lo + k] == '=');
            }
        }
        let value = string_of(&v, lo, hi);
        text_map_insert(&mut map, OTHER_KEY.to_owned(), value);
        proof {
            let f = seq![Field { key: OTHER_KEY@, value: body, enclosure: Enclosure::Bare }];
            assert(f.drop_last() =~= Seq::<Field>::empty());
            assert(entries_of(f) == insert_entry(entries_of(f.drop_last()), OTHER_KEY@, body));
        }
        return Ok(map);
    }
    assert(body.contains('=')) by {
        assert(body[j - lo] == '=');
    }
    let r = scan_body(&v, lo, hi);
    match r {
        Ok(m) => Ok(m),
        Err(e) => Err(e),
    }
}

/// Runs the state machine over `v[lo..hi]` and inserts the pairs it reads.
#[verifier::spinoff_prover]
fn scan_body(v: &Vec<char>, lo: usize, hi: usize) -> (r: Result<LinkedHashMap<String, String>, VcfError>)
    requires
        lo <= hi <= v@.len(),
    ensures
        match r {
            Ok(m) => scan_result(v@.subrange(lo as int, hi as int)) is Ok && text_entries(m)
                == entries_of(scan_result(v@.subrange(lo as int, hi as int))->Ok_0),
            Err(e) => scan_result(v@.subrange(lo as int, hi as int)) == Err::<Seq<Field>, _>(e@),
        },
{
    let ghost body = v@.subrange(lo as int, hi as int);
    let mut map = new_text_map();
    let mut cur = Cursor { mode: ScanMode::Key, key_start: lo, key_end: lo, value_start: lo };
    let mut fields: Ghost<Seq<Field>> = Ghost(Seq::empty());
    let mut i = lo;
    assert(body.take(0) =~= Seq::<char>::empty());
    assert(v@.subrange(lo as int, lo as int) =~= Seq::<char>::empty());
    while i < hi
        invariant
            lo <= i <= hi <= v@.len(),
            body == v@.subrange(lo as int, hi as int),
            cursor_ok(lo as int, i as int, cur),
            scan_from(body, start_scan(), body.take(i - lo)) == Ok::<_, ErrorView>(
                held_scan(v@, i as int, cur, fields@),
            ),
            text_entries(map) == entries_of(fields@),
        decreases hi - i,
    {
        let ghost st = held_scan(v@, i as int, cur, fields@);
        assert(body.take(i + 1 - lo).drop_last() =~= body.take(i - lo));
        assert(body.take(i + 1 - lo).last() == v@[i as int]);
        assert(scan_from(body, start_scan(), body.take(i + 1 - lo)) == step(body, st, v@[i as int]));
        let r = scan_char(v, lo, hi, i, &mut cur, &mut map, &mut fields);
        if let Err(e) = r {
            proof {
                lemma_scan_error_persists(body, start_scan(), body, i + 1 - lo);
            }
            return Err(e);
        }
        i += 1;
    }
    assert(body.take(i - lo) =~= body);
    match cur.mode {
        ScanMode::Value => {
            if i == cur.value_start {
                return Err(payload_error(ErrorKind::EmptyValue, v, lo, hi));
            }
            complete_pair(v, lo, hi, i, &cur, Enclosure::Bare, &mut map, &mut fields)?;
            Ok(map)
        },
        ScanMode::Enclosed(_, _) => Err(payload_error(ErrorKind::UnbalancedQuote, v, lo, hi)),
        _ => Ok(map),
    }
}

/// How a pair is written in a payload.
pub open spec fn field_text(f: Field) -> Seq<char> {
    f.key + seq!['='] + match f.enclosure {
        Enclosure::Bare => f.value,
        Enclosure::Quoted => seq!['"'] + f.value + seq!['"'],
        Enclosure::Bracketed => seq!['['] + f.value + seq![']'],
    }
}

/// The pairs written one after the other, separated by `,`.
pub open spec fn fields_text(fs: Seq<Field>) -> Seq<char>
    decreases fs.len(),
{
    if fs.len() == 0 {
        Seq::empty()
    } else if fs.len() == 1 {
        field_text(fs[0])
    } else {
        fields_text(fs.drop_last()) + seq![','] + field_text(fs.last())
    }
}

/// The previous character that the tokenizer remembers after reading `v`
/// inside quotes.
pub open spec fn escape_state(v: Seq<char>) -> char
    decreases v.len(),
{
    if v.len() == 0 {
        '_'
    } else {
        next_prev(escape_state(v.drop_last()), v.last())
    }
}

/// Whether every quote of `v` is escaped: it does not close the value.
pub open spec fn quotes_escaped(v: Seq<char>) -> bool {
    forall|i: int| 0 <= i < v.len() && v[i] == '"' ==> escape_state(#[trigger] v.take(i)) == '\\'
}

/// Whether `v` reads back as itself when written with `enclosure`.
pub open spec fn writable_value(v: Seq<char>, enclosure: Enclosure) -> bool {
    v.len() > 0 && match enclosure {
        Enclosure::Bare => forall|i: int|
            0 <= i < v.len() ==> #[trigger] v[i] != ',' && v[i] != '"' && v[i] != '[',
        Enclosure::Quoted => quotes_escaped(v) && escape_state(v) != '\\',
        Enclosure::Bracketed => forall|i: int| 0 <= i < v.len() ==> #[trigger] v[i] != ']',
    }
}

/// Whether `k` can be written as a key: not empty, with no `=`.
pub open spec fn writable_key(k: Seq<char>) -> bool {
    k.len() > 0 && forall|i: int| 0 <= i < k.len() ==> #[trigger] k[i] != '='
}

pub open spec fn writable_field(f: Field) -> bool {
    writable_key(f.key) && writable_value(f.value, f.enclosure)
}

pub open spec fn key_scan(key: Seq<char>, fields: Seq<Field>) -> Scan {
    Scan { mode: ScanMode::Key, key, value: Seq::empty(), fields }
}

/// The tokenizer's state right after it has read field `f` after `fields`.
pub open spec fn after_field(fields: Seq<Field>, f: Field) -> Scan {
    match f.enclosure {
        Enclosure::Bare => Scan { mode: ScanMode::Value, key: f.key, value: f.value, fields },
        _ => Scan {
            mode: ScanMode::QuoteEnded,
            key: Seq::empty(),
            value: Seq::empty(),
            fields: fields.push(f),
        },
    }
}

/// Reading `a + b` is reading `a`, then `b` from where `a` left off.
pub proof fn lemma_scan_append(p: Seq<char>, st: Scan, a: Seq<char>, b: Seq<char>)
    ensures
        scan_from(p, st, a + b) == match scan_from(p, st, a) {
            Ok(s2) => scan_from(p, s2, b),
            Err(e) => Err(e),
        },
    decreases b.len(),
{
    if b.len() == 0 {
        assert(a + b =~= a);
    } else {
        lemma_scan_append(p, st, a, b.drop_last());
        assert((a + b).drop_last() =~= a + b.drop_last());
        assert((a + b).last() == b.last());
    }
}

proof fn lemma_scan_one(p: Seq<char>, st: Scan, c: char)
    ensures
        scan_from(p, st, seq![c]) == step(p, st, c),
{
    let s = seq![c];
    assert(s.drop_last() =~= Seq::<char>::empty());
    assert(scan_from(p, st, s.drop_last()) == Ok::<_, ErrorView>(st));
    assert(s.last() == c);
}

proof fn lemma_scan_key(p: Seq<char>, k0: Seq<char>, fields: Seq<Field>, k: Seq<char>)
    requires
        forall|i: int| 0 <= i < k.len() ==> #[trigger] k[i] != '=',
    ensures
        scan_from(p, key_scan(k0, fields), k) == Ok::<_, ErrorView>(key_scan(k0 + k, fields)),
    decreases k.len(),
{
    reveal(step);
    if k.len() == 0 {
        assert(k0 + k =~= k0);
    } else {
        let k1 = k.drop_last();
        assert forall|i: int| 0 <= i < k1.len() implies #[trigger] k1[i] != '=' by {
            assert(k1[i] == k[i]);
        }
        lemma_scan_key(p, k0, fields, k1);
        assert(k.last() == k[k.len() - 1]);
        assert((k0 + k1).push(k.last()) =~= k0 + k);
    }
}

proof fn lemma_scan_bare(p: Seq<char>, key: Seq<char>, fields: Seq<Field>, v: Seq<char>)
    requires
        forall|i: int| 0 <= i < v.len() ==> #[trigger] v[i] != ',' && v[i] != '"' && v[i] != '[',
    ensures
        scan_from(p, Scan { mode: ScanMode::Value, key, value: Seq::empty(), fields }, v)
            == Ok::<_, ErrorView>(Scan { mode: ScanMode::Value, key, value: v, fields }),
    decreases v.len(),
{
    reveal(step);
    if v.len() > 0 {
        let v1 = v.drop_last();
        assert forall|i: int| 0 <= i < v1.len() implies #[trigger] v1[i] != ',' && v1[i] != '"'
            && v1[i] != '[' by {
            assert(v1[i] == v[i]);
        }
        lemma_scan_bare(p, key, fields, v1);
        assert(v.last() == v[v.len() - 1]);
        assert(v1.push(v.last()) =~= v);
    } else {
        assert(v =~= Seq::<char>::empty());
    }
}

proof fn lemma_scan_quoted(p: Seq<char>, key: Seq<char>, fields: Seq<Field>, v: Seq<char>)
    requires
        quotes_escaped(v),
    ensures
        scan_from(p, Scan { mode: ScanMode::Enclosed('"', '_'), key, value: Seq::empty(), fields }, v)
            == Ok::<_, ErrorView>(
            Scan { mode: ScanMode::Enclosed('"', escape_state(v)), key, value: v, fields },
        ),
    decreases v.len(),
{
    reveal(step);
    if v.len() > 0 {
        let v1 = v.drop_last();
        assert forall|i: int| 0 <= i < v1.len() && v1[i] == '"' implies escape_state(
            #[trigger] v1.take(i),
        ) == '\\' by {
            assert(v1[i] == v[i]);
            assert(v1.take(i) =~= v.take(i));
        }
        lemma_scan_quoted(p, key, fields, v1);
        let c = v.last();
        assert(c == v[v.len() - 1]);
        assert(v.take(v.len() - 1) =~= v1);
        assert(v1.push(c) =~= v);
    } else {
        assert(v =~= Seq::<char>::empty());
    }
}

proof fn lemma_scan_bracketed(p: Seq<char>, key: Seq<char>, fields: Seq<Field>, v: Seq<char>)
    requires
        forall|i: int| 0 <= i < v.len() ==> #[trigger] v[i] != ']',
    ensures
        exists|prev: char|
            scan_from(
                p,
                Scan { mode: ScanMode::Enclosed('[', '_'), key, value: Seq::empty(), fields },
                v,
            ) == Ok::<_, ErrorView>(
                Scan { mode: ScanMode::Enclosed('[', prev), key, value: v, fields },
            ),
    decreases v.len(),
{
    reveal(step);
    if v.len() > 0 {
        let v1 = v.drop_last();
        assert forall|i: int| 0 <= i < v1.len() implies #[trigger] v1[i] != ']' by {
            assert(v1[i] == v[i]);
        }
        lemma_scan_bracketed(p, key, fields, v1);
        let prev = choose|prev: char|
            scan_from(
                p,
                Scan { mode: ScanMode::Enclosed('[', '_'), key, value: Seq::empty(), fields },
                v1,
            ) == Ok::<_, ErrorView>(
                Scan { mode: ScanMode::Enclosed('[', prev), key, value: v1, fields },
            );
        assert(v.last() == v[v.len() - 1]);
        assert(v1.push(v.last()) =~= v);
        let st = Scan { mode: ScanMode::Enclosed('[', next_prev(prev, v.last())), key, value: v, fields };
        assert(scan_from(
            p,
            Scan { mode: ScanMode::Enclosed('[', '_'), key, value: Seq::empty(), fields },
            v,
        ) == Ok::<_, ErrorView>(st));
    } else {
        assert(v =~= Seq::<char>::empty());
        assert(scan_from(
            p,
            Scan { mode: ScanMode::Enclosed('[', '_'), key, value: Seq::empty(), fields },
            v,
        ) == Ok::<_, ErrorView>(
            Scan { mode: ScanMode::Enclosed('[', '_'), key, value: v, fields },
        ));
    }
}

/// Reading a writable field from the start of a key leaves the tokenizer
/// right after that field.
#[verifier::spinoff_prover]
proof fn lemma_scan_field(p: Seq<char>, fields: Seq<Field>, f: Field)
    requires
        writable_field(f),
    ensures
        scan_from(p, key_scan(Seq::empty(), fields), field_text(f)) == Ok::<_, ErrorView>(
            after_field(fields, f),
        ),
{
    reveal(step);
    let k = f.key;
    let v = f.value;
    lemma_scan_key(p, Seq::empty(), fields, k);
    assert(Seq::<char>::empty() + k =~= k);
    let eq = seq!['='];
    lemma_scan_append(p, key_scan(Seq::empty(), fields), k, eq);
    assert(eq.drop_last() =~= Seq::<char>::empty());
    assert(eq.last() == '=');
    lemma_scan_one(p, key_scan(k, fields), '=');
    let sv = Scan { mode: ScanMode::Value, key: k, value: Seq::empty(), fields };
    assert(scan_from(p, key_scan(Seq::empty(), fields), k + eq) == Ok::<_, ErrorView>(sv));
    match f.enclosure {
        Enclosure::Bare => {
            lemma_scan_bare(p, k, fields, v);
            lemma_scan_append(p, key_scan(Seq::empty(), fields), k + eq, v);
            assert(field_text(f) =~= k + eq + v);
        },
        Enclosure::Quoted => {
            let q = seq!['"'];
            assert(q.drop_last() =~= Seq::<char>::empty());
            assert(q.last() == '"');
            let se = Scan { mode: ScanMode::Enclosed('"', '_'), key: k, value: Seq::empty(), fields };
            lemma_scan_append(p, key_scan(Seq::empty(), fields), k + eq, q);
            lemma_scan_one(p, sv, '"');
            assert(scan_from(p, key_scan(Seq::empty(), fields), k + eq + q) == Ok::<_, ErrorView>(se));
            lemma_scan_quoted(p, k, fields, v);
            lemma_scan_append(p, key_scan(Seq::empty(), fields), k + eq + q, v);
            let sq = Scan { mode: ScanMode::Enclosed('"', escape_state(v)), key: k, value: v, fields };
            lemma_scan_append(p, key_scan(Seq::empty(), fields), k + eq + q + v, q);
            lemma_scan_one(p, sq, '"');
            assert(field_text(f) =~= k + eq + q + v + q);
        },
        Enclosure::Bracketed => {
            let o = seq!['['];
            let c = seq![']'];
            assert(o.drop_last() =~= Seq::<char>::empty());
            assert(c.drop_last() =~= Seq::<char>::empty());
            assert(o.last() == '[');
            assert(c.last() == ']');
            let se = Scan { mode: ScanMode::Enclosed('[', '_'), key: k, value: Seq::empty(), fields };
            lemma_scan_append(p, key_scan(Seq::empty(), fields), k + eq, o);
            lemma_scan_one(p, sv, '[');
            assert(scan_from(p, key_scan(Seq::empty(), fields), k + eq + o) == Ok::<_, ErrorView>(se));
            lemma_scan_bracketed(p, k, fields, v);
            let prev = choose|prev: char|
                scan_from(p, se, v) == Ok::<_, ErrorView>(
                    Scan { mode: ScanMode::Enclosed('[', prev), key: k, value: v, fields },
                );
            lemma_scan_append(p, key_scan(Seq::empty(), fields), k + eq + o, v);
            let sb = Scan { mode: ScanMode::Enclosed('[', prev), key: k, value: v, fields };
            lemma_scan_append(p, key_scan(Seq::empty(), fields), k + eq + o + v, c);
            lemma_scan_one(p, sb, ']');
            assert(field_text(f) =~= k + eq + o + v + c);
        },
    }
}

/// Reading writable fields written out leaves the tokenizer right after the
/// last of them.
#[verifier::spinoff_prover]
proof fn lemma_scan_fields(p: Seq<char>, fs: Seq<Field>)
    requires
        fs.len() > 0,
        forall|i: int| 0 <= i < fs.len() ==> writable_field(#[trigger] fs[i]),
    ensures
        scan_from(p, start_scan(), fields_text(fs)) == Ok::<_, ErrorView>(
            after_field(fs.drop_last(), fs.last()),
        ),
    decreases fs.len(),
{
    reveal(step);
    if fs.len() == 1 {
        assert(fs.drop_last() =~= Seq::<Field>::empty());
        assert(fs[0] == fs.last());
        lemma_scan_field(p, Seq::empty(), fs[0]);
    } else {
        let init = fs.drop_last();
        assert forall|i: int| 0 <= i < init.len() implies writable_field(#[trigger] init[i]) by {
            assert(init[i] == fs[i]);
        }
        lemma_scan_fields(p, init);
        let st = after_field(init.drop_last(), init.last());
        let comma = seq![','];
        assert(comma.drop_last() =~= Seq::<char>::empty());
        assert(comma.last() == ',');
        assert(init.drop_last().push(init.last()) =~= init);
        assert(writable_field(init[init.len() - 1]));
        lemma_scan_append(p, start_scan(), fields_text(init), comma);
        lemma_scan_one(p, st, ',');
        assert(scan_from(p, start_scan(), fields_text(init) + comma) == Ok::<_, ErrorView>(
            key_scan(Seq::empty(), init),
        ));
        assert(writable_field(fs[fs.len() - 1]));
        lemma_scan_field(p, init, fs.last());
        lemma_scan_append(p, start_scan(), fields_text(init) + comma, field_text(fs.last()));
    }
}

/// A payload written as `<` + writable fields + `>` reads back as exactly
/// those fields.
pub proof fn lemma_tokenize_fields(fs: Seq<Field>)
    requires
        fs.len() > 0,
        forall|i: int| 0 <= i < fs.len() ==> writable_field(#[trigger] fs[i]),
    ensures
        tokenize(seq!['<'] + fields_text(fs) + seq!['>']) == Ok::<_, ErrorView>(fs),
        payload_entries(seq!['<'] + fields_text(fs) + seq!['>']) == Ok::<_, ErrorView>(
            entries_of(fs),
        ),
{
    let body = fields_text(fs);
    let p = seq!['<'] + body + seq!['>'];
    assert(payload_body(p) =~= body);
    lemma_scan_fields(body, fs);
    assert(fs.drop_last().push(fs.last()) =~= fs);
    assert(writable_field(fs[fs.len() - 1]));
    lemma_fields_text_has_equals(fs);
}

proof fn lemma_fields_text_has_equals(fs: Seq<Field>)
    requires
        fs.len() > 0,
    ensures
        fields_text(fs).contains('='),
        fields_text(fs).len() > 0,
    decreases fs.len(),
{
    if fs.len() == 1 {
        assert(field_text(fs[0])[fs[0].key.len() as int] == '=');
    } else {
        lemma_fields_text_has_equals(fs.drop_last());
        let t = fields_text(fs.drop_last());
        let i = choose|i: int| 0 <= i < t.len() && t[i] == '=';
        assert(fields_text(fs)[i] == '=');
    }
}

/// A payload with no `=` and no angle bracket at its ends reads back whole
/// under `OTHER_KEY`.
pub proof fn lemma_tokenize_whole(v: Seq<char>)
    requires
        v.len() > 0,
        !v.contains('='),
        v[0] != '<',
        v.last() != '>',
    ensures
        payload_entries(v) == Ok::<_, ErrorView>(seq![(OTHER_KEY@, v)]),
{
    let f = seq![Field { key: OTHER_KEY@, value: v, enclosure: Enclosure::Bare }];
    assert(f.drop_last() =~= Seq::<Field>::empty());
    assert(without_key(Seq::<(Seq<char>, Seq<char>)>::empty(), OTHER_KEY@) =~= Seq::<(Seq<char>, Seq<char>)>::empty());
    assert(entries_of(Seq::<Field>::empty()) == Seq::<(Seq<char>, Seq<char>)>::empty());
    assert(f.last() == f[0]);
    assert(entries_of(f) == insert_entry(entries_of(f.drop_last()), f.last().key, f.last().value));
    assert(entries_of(f) =~= seq![(OTHER_KEY@, v)]);
}

/// The pairs written out, followed by `,` if there are any.
pub open spec fn fields_prefix(fs: Seq<Field>) -> Seq<char> {
    if fs.len() == 0 {
        Seq::empty()
    } else {
        fields_text(fs) + seq![',']
    }
}

/// The text that the tokenizer has read to reach state `st`.
pub open spec fn consumed(st: Scan) -> Seq<char> {
    match st.mode {
        ScanMode::Key => fields_prefix(st.fields) + st.key,
        ScanMode::Value => fields_prefix(st.fields) + st.key + seq!['='] + st.value,
        ScanMode::Enclosed(d, _) => fields_prefix(st.fields) + st.key + seq!['='] + seq![d]
            + st.value,
        ScanMode::QuoteEnded => fields_text(st.fields),
    }
}

pub open spec fn no_equals(k: Seq<char>) -> bool {
    forall|i: int| 0 <= i < k.len() ==> #[trigger] k[i] != '='
}

/// What holds of every state that the tokenizer reaches.
pub open spec fn scan_ok(st: Scan) -> bool {
    &&& forall|i: int| 0 <= i < st.fields.len() ==> writable_field(#[trigger] st.fields[i])
    &&& no_equals(st.key)
    &&& match st.mode {
        ScanMode::Key => true,
        ScanMode::Value => forall|i: int|
            0 <= i < st.value.len() ==> #[trigger] st.value[i] != ',' && st.value[i] != '"'
                && st.value[i] != '[',
        ScanMode::Enclosed(d, prev) => if d == '"' {
            quotes_escaped(st.value) && prev == escape_state(st.value)
        } else {
            d == '[' && forall|i: int| 0 <= i < st.value.len() ==> #[trigger] st.value[i] != ']'
        },
        ScanMode::QuoteEnded => st.fields.len() > 0,
    }
}

proof fn lemma_fields_text_push(fs: Seq<Field>, f: Field)
    ensures
        fields_text(fs.push(f)) == fields_prefix(fs) + field_text(f),
{
    assert(fs.push(f).drop_last() =~= fs);
    if fs.len() == 0 {
        assert(fs.push(f)[0] == f);
        assert(fields_prefix(fs) + field_text(f) =~= field_text(f));
    }
}

/// Completing a pair keeps the invariant and the text read.
proof fn lemma_finish_sound(p: Seq<char>, st: Scan, enclosure: Enclosure, fs: Seq<Field>)
    requires
        finish(p, st, enclosure) == Ok::<_, ErrorView>(fs),
        no_equals(st.key),
        writable_value(st.value, enclosure) || st.value.len() == 0,
        forall|i: int| 0 <= i < st.fields.len() ==> writable_field(#[trigger] st.fields[i]),
    ensures
        fs == st.fields.push(Field { key: st.key, value: st.value, enclosure }),
        forall|i: int| 0 <= i < fs.len() ==> writable_field(#[trigger] fs[i]),
        fields_text(fs) == fields_prefix(st.fields) + field_text(
            Field { key: st.key, value: st.value, enclosure },
        ),
{
    let f = Field { key: st.key, value: st.value, enclosure };
    lemma_fields_text_push(st.fields, f);
    assert forall|i: int| 0 <= i < fs.len() implies writable_field(#[trigger] fs[i]) by {
        if i < st.fields.len() {
            assert(fs[i] == st.fields[i]);
        }
    }
}

/// Every state that the tokenizer reaches has read exactly `consumed` of it
/// and keeps `scan_ok`.
#[verifier::spinoff_prover]
#[verifier::rlimit(100)]
proof fn lemma_scan_sound(p: Seq<char>, s: Seq<char>)
    requires
        scan_from(p, start_scan(), s) is Ok,
    ensures
        consumed(scan_from(p, start_scan(), s)->Ok_0) == s,
        scan_ok(scan_from(p, start_scan(), s)->Ok_0),
    decreases s.len(),
{
    reveal(step);
    if s.len() == 0 {
        assert(consumed(start_scan()) =~= s);
    } else {
        let s0 = s.drop_last();
        let c = s.last();
        assert(scan_from(p, start_scan(), s0) is Ok);
        lemma_scan_sound(p, s0);
        let st = scan_from(p, start_scan(), s0)->Ok_0;
        let st2 = scan_from(p, start_scan(), s)->Ok_0;
        assert(step(p, st, c) == Ok::<_, ErrorView>(st2));
        assert(s =~= s0.push(c));
        match st.mode {
            ScanMode::Key => {
                if c == '=' {
                    assert(consumed(st2) =~= s);
                } else {
                    assert(consumed(st2) =~= s);
                    assert forall|i: int| 0 <= i < st2.key.len() implies #[trigger] st2.key[i]
                        != '=' by {
                        if i < st.key.len() {
                            assert(st2.key[i] == st.key[i]);
                        }
                    }
                }
            },
            ScanMode::Value => {
                if c == ',' {
                    lemma_finish_sound(p, st, Enclosure::Bare, st2.fields);
                    assert(consumed(st2) =~= s);
                } else if c == '"' || c == '[' {
                    assert(st.value.len() == 0);
                    assert(consumed(st2) =~= s);
                    assert(st2.value =~= Seq::<char>::empty());
                    assert(quotes_escaped(st2.value));
                } else {
                    assert(consumed(st2) =~= s);
                    assert forall|i: int| 0 <= i < st2.value.len() implies #[trigger] st2.value[i]
                        != ',' && st2.value[i] != '"' && st2.value[i] != '[' by {
                        if i < st.value.len() {
                            assert(st2.value[i] == st.value[i]);
                        }
                    }
                }
            },
            ScanMode::Enclosed(d, prev) => {
                if closes(d, prev, c) {
                    lemma_finish_sound(p, st, enclosure_of(d), st2.fields);
                    assert(consumed(st2) =~= s);
                } else {
                    assert(consumed(st2) =~= s);
                    let v2 = st2.value;
                    assert(v2.drop_last() =~= st.value);
                    if d == '"' {
                        assert forall|i: int| 0 <= i < v2.len() && v2[i] == '"' implies escape_state(
                            #[trigger] v2.take(i),
                        ) == '\\' by {
                            if i < st.value.len() {
                                assert(v2.take(i) =~= st.value.take(i));
                                assert(v2[i] == st.value[i]);
                            } else {
                                assert(v2.take(i) =~= st.value);
                            }
                        }
                    } else {
                        assert forall|i: int| 0 <= i < v2.len() implies #[trigger] v2[i] != ']' by {
                            if i < st.value.len() {
                                assert(v2[i] == st.value[i]);
                            }
                        }
                    }
                }
            },
            ScanMode::QuoteEnded => {
                assert(consumed(st2) =~= s);
            },
        }
    }
}

/// Whether `body` is the pairs `fs` written out, each writable, possibly
/// followed by `,` and a text with no `=` (which the tokenizer drops).
pub open spec fn written_as(body: Seq<char>, fs: Seq<Field>) -> bool {
    &&& fs.len() > 0
    &&& forall|i: int| 0 <= i < fs.len() ==> writable_field(#[trigger] fs[i])
    &&& (body == fields_text(fs) || exists|t: Seq<char>|
        no_equals(t) && body == fields_text(fs) + seq![','] + t)
}

/// The tokenizer keeps exactly the pairs written in the payload, in order,
/// with their quotes or brackets removed and their escapes kept: a payload
/// with `=` that it accepts is the pairs it returns written out (possibly
/// followed by `,` and a text without `=`), and the map holds those pairs,
/// a later pair replacing an earlier one under the same key; a payload
/// without `=` is kept whole. Conversely, writable pairs written out read
/// back as themselves (`lemma_tokenize_fields`).
#[verifier::spinoff_prover]
pub proof fn lemma_payload_pairs(p: Seq<char>)
    requires
        tokenize(p) is Ok,
    ensures
        payload_entries(p) == Ok::<_, ErrorView>(entries_of(tokenize(p)->Ok_0)),
        payload_body(p).contains('=') ==> written_as(payload_body(p), tokenize(p)->Ok_0),
        !payload_body(p).contains('=') ==> tokenize(p)->Ok_0 == seq![
            Field { key: OTHER_KEY@, value: payload_body(p), enclosure: Enclosure::Bare },
        ],
{
    let body = payload_body(p);
    if body.contains('=') {
        lemma_scan_sound(body, body);
        let st = scan_from(body, start_scan(), body)->Ok_0;
        let fs = tokenize(p)->Ok_0;
        match st.mode {
            ScanMode::Key => {
                if st.fields.len() == 0 {
                    assert(body =~= st.key);
                    let i = choose|i: int| 0 <= i < body.len() && body[i] == '=';
                    assert(st.key[i] == '=');
                }
                assert(body == fields_text(fs) + seq![','] + st.key);
            },
            ScanMode::Value => {
                lemma_finish_sound(body, st, Enclosure::Bare, fs);
                assert(body =~= fields_text(fs));
            },
            _ => {},
        }
    }
}

} // verus!

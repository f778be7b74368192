use vstd::prelude::*;
use vstd::string::StrSliceExecFns;

use crate::record::FIELD_COUNT;
use crate::record::Record;
use crate::strutil::push_char;

verus! {

/// Why a CSV document was rejected.
///
/// `Syntax` is a structural fault: an unterminated quoted field, a stray
/// quote inside an unquoted field, or text following a closing quote.
/// `FieldCount` is a retained row whose number of fields differs from the
/// seventeen-column schema.
#[derive(Clone, Copy, Debug, PartialEq, Eq, Structural)]
pub enum CsvError {
    Syntax,
    FieldCount,
}

impl CsvError {
    /// A short description of the fault, for reporting.
    pub fn message(&self) -> (m: &'static str)
        ensures
            m@ == (match *self {
                CsvError::Syntax => "malformed CSV: bad quoting"@,
                CsvError::FieldCount => "malformed CSV row: wrong field count"@,
            }),
    {
        match *self {
            CsvError::Syntax => "malformed CSV: bad quoting",
            CsvError::FieldCount => "malformed CSV row: wrong field count",
        }
    }
}

/// A row terminator character: carriage return or line feed.
pub open spec fn is_term_char(c: char) -> bool {
    c == '\r' || c == '\n'
}

/// A character that ends a field: the separator or a row terminator.
pub open spec fn is_field_end_char(c: char) -> bool {
    c == ',' || is_term_char(c)
}

/// Value and remainder of an unquoted field read from the front of `s`.
///
/// The field runs to the first comma or row terminator (or to the end of
/// input); a quote character inside an unquoted field is a syntax error.
pub open spec fn spec_parse_unquoted(s: Seq<char>) -> Option<(Seq<char>, Seq<char>)>
    decreases s.len(),
{
    if s.len() == 0 {
        Some((Seq::empty(), s))
    } else if is_field_end_char(s[0]) {
        Some((Seq::empty(), s))
    } else if s[0] == '"' {
        None
    } else {
        match spec_parse_unquoted(s.drop_first()) {
            Some(p) => Some((seq![s[0]] + p.0, p.1)),
            None => None,
        }
    }
}

/// Content and remainder of a quoted field, read from just after the
/// opening quote.
///
/// A doubled quote stands for one quote character; any other character,
/// separators and terminators included, is taken verbatim. Reaching the end
/// of input before the closing quote is a syntax error.
pub open spec fn spec_parse_quoted(s: Seq<char>) -> Option<(Seq<char>, Seq<char>)>
    decreases s.len(),
{
    if s.len() == 0 {
        None
    } else if s[0] == '"' {
        if s.len() >= 2 && s[1] == '"' {
            match spec_parse_quoted(s.skip(2)) {
                Some(p) => Some((seq!['"'] + p.0, p.1)),
                None => None,
            }
        } else {
            Some((Seq::empty(), s.drop_first()))
        }
    } else {
        match spec_parse_quoted(s.drop_first()) {
            Some(p) => Some((seq![s[0]] + p.0, p.1)),
            None => None,
        }
    }
}

/// Value and remainder of one field read from the front of `s`.
///
/// A field that begins with a quote is parsed as a quoted field, and the
/// closing quote must be followed by a field end or the end of input;
/// anything else there is a syntax error. Any other field is unquoted.
pub open spec fn spec_parse_field(s: Seq<char>) -> Option<(Seq<char>, Seq<char>)> {
    if s.len() > 0 && s[0] == '"' {
        match spec_parse_quoted(s.drop_first()) {
            Some(p) => if p.1.len() == 0 || is_field_end_char(p.1[0]) {
                Some(p)
            } else {
                None
            },
            None => None,
        }
    } else {
        spec_parse_unquoted(s)
    }
}

/// `s` with one leading row terminator removed: "\r\n" counts as a single
/// terminator, a lone "\r" or "\n" as one each.
pub open spec fn spec_skip_terminator(s: Seq<char>) -> Seq<char> {
    if s.len() >= 2 && s[0] == '\r' && s[1] == '\n' {
        s.skip(2)
    } else if s.len() >= 1 && is_term_char(s[0]) {
        s.drop_first()
    } else {
        s
    }
}

/// An unquoted field's remainder is no longer than its input and starts at
/// a field end, when it starts at all.
pub proof fn lemma_parse_unquoted_rest_len(s: Seq<char>)
    ensures
        spec_parse_unquoted(s) matches Some(p) ==> p.1.len() <= s.len() && (p.1.len() == 0
            || is_field_end_char(p.1[0])),
    decreases s.len(),
{
    if s.len() > 0 && !is_field_end_char(s[0]) && s[0] != '"' {
        lemma_parse_unquoted_rest_len(s.drop_first());
    }
}

/// A quoted field's remainder is strictly shorter than its input: at least
/// the closing quote is consumed.
pub proof fn lemma_parse_quoted_rest_len(s: Seq<char>)
    ensures
        spec_parse_quoted(s) matches Some(p) ==> p.1.len() < s.len(),
    decreases s.len(),
{
    if s.len() == 0 {
    } else if s[0] == '"' {
        if s.len() >= 2 && s[1] == '"' {
            lemma_parse_quoted_rest_len(s.skip(2));
        }
    } else {
        lemma_parse_quoted_rest_len(s.drop_first());
    }
}

/// A field's remainder is no longer than its input and starts at a field
/// end, when it starts at all.
pub proof fn lemma_parse_field_rest_len(s: Seq<char>)
    ensures
        spec_parse_field(s) matches Some(p) ==> p.1.len() <= s.len() && (p.1.len() == 0
            || is_field_end_char(p.1[0])),
{
    if s.len() > 0 && s[0] == '"' {
        lemma_parse_quoted_rest_len(s.drop_first());
    } else {
        lemma_parse_unquoted_rest_len(s);
    }
}

/// Fields of one row read from the front of `s`, and the remainder after
/// the row's terminator.
///
/// Fields are separated by commas; the row ends at a terminator (which is
/// consumed) or at the end of input. Every row has at least one field: an
/// empty row text is one empty field.
pub open spec fn spec_parse_row(s: Seq<char>) -> Option<(Seq<Seq<char>>, Seq<char>)>
    decreases s.len(),
{
    match spec_parse_field(s) {
        None => None,
        Some(p) => {
            let (f, rest) = p;
            if rest.len() > 0 && rest[0] == ',' {
                proof {
                    lemma_parse_field_rest_len(s);
                }
                match spec_parse_row(rest.drop_first()) {
                    Some(q) => Some((seq![f] + q.0, q.1)),
                    None => None,
                }
            } else {
                Some((seq![f], spec_skip_terminator(rest)))
            }
        },
    }
}

/// A row's remainder is no longer than its input, and strictly shorter
/// when the input is not empty: a row always consumes something.
pub proof fn lemma_parse_row_rest_len(s: Seq<char>)
    ensures
        spec_parse_row(s) matches Some(p) ==> p.1.len() <= s.len(),
        s.len() > 0 ==> (spec_parse_row(s) matches Some(p) ==> p.1.len() < s.len()),
    decreases s.len(),
{
    lemma_parse_field_rest_len(s);
    match spec_parse_field(s) {
        None => {},
        Some(p) => {
            let (f, rest) = p;
            if rest.len() > 0 && rest[0] == ',' {
                lemma_parse_row_rest_len(rest.drop_first());
            }
        },
    }
}

/// All rows of a CSV document.
///
/// Rows are separated by "\r\n", "\n" or "\r"; blank lines are skipped; a
/// trailing terminator ends the last row without starting a new one. `None`
/// is a syntax error somewhere in the document.
pub open spec fn spec_parse_csv(s: Seq<char>) -> Option<Seq<Seq<Seq<char>>>>
    decreases s.len(),
{
    if s.len() == 0 {
        Some(Seq::empty())
    } else if is_term_char(s[0]) {
        spec_parse_csv(spec_skip_terminator(s))
    } else {
        match spec_parse_row(s) {
            None => None,
            Some(p) => {
                proof {
                    lemma_parse_row_rest_len(s);
                }
                match spec_parse_csv(p.1) {
                    Some(rows) => Some(seq![p.0] + rows),
                    None => None,
                }
            },
        }
    }
}

/// Reads an unquoted field from the front of `s`, appending its value to
/// `out` and returning the unread remainder.
fn parse_unquoted<'a>(s: &'a str, out: &mut String) -> (r: Option<&'a str>)
    ensures
        (r is Some) == (spec_parse_unquoted(s@) is Some),
        r matches Some(rem) ==> spec_parse_unquoted(s@) matches Some(p) && final(out)@ == old(
            out,
        )@ + p.0 && rem@ == p.1,
    decreases s@.len(),
{
    let n = s.unicode_len();
    if n == 0 {
        proof {
            assert(old(out)@ + Seq::<char>::empty() =~= old(out)@);
        }
        return Some(s);
    }
    let c = s.get_char(0);
    if c == ',' || c == '\r' || c == '\n' {
        proof {
            assert(old(out)@ + Seq::<char>::empty() =~= old(out)@);
        }
        Some(s)
    } else if c == '"' {
        None
    } else {
        push_char(out, c);
        let rest = s.substring_char(1, n);
        let r = parse_unquoted(rest, out);
        proof {
            assert(rest@ =~= s@.drop_first());
            if let Some(p) = spec_parse_unquoted(rest@) {
                assert(old(out)@ + (seq![c] + p.0) =~= (old(out)@.push(c)) + p.0);
            }
        }
        r
    }
}

/// Reads the content of a quoted field from `s`, which begins just after
/// the opening quote, appending the content to `out` and returning the
/// remainder after the closing quote.
fn parse_quoted<'a>(s: &'a str, out: &mut String) -> (r: Option<&'a str>)
    ensures
        (r is Some) == (spec_parse_quoted(s@) is Some),
        r matches Some(rem) ==> spec_parse_quoted(s@) matches Some(p) && final(out)@ == old(
            out,
        )@ + p.0 && rem@ == p.1,
    decreases s@.len(),
{
    let n = s.unicode_len();
    if n == 0 {
        return None;
    }
    let c = s.get_char(0);
    if c == '"' {
        if n >= 2 && s.get_char(1) == '"' {
            push_char(out, '"');
            let rest = s.substring_char(2, n);
            let r = parse_quoted(rest, out);
            proof {
                assert(rest@ =~= s@.skip(2));
                if let Some(p) = spec_parse_quoted(rest@) {
                    assert(old(out)@ + (seq!['"'] + p.0) =~= (old(out)@.push('"')) + p.0);
                }
            }
            r
        } else {
            let rem = s.substring_char(1, n);
            proof {
                assert(rem@ =~= s@.drop_first());
                assert(old(out)@ + Seq::<char>::empty() =~= old(out)@);
            }
            Some(rem)
        }
    } else {
        push_char(out, c);
        let rest = s.substring_char(1, n);
        let r = parse_quoted(rest, out);
        proof {
            assert(rest@ =~= s@.drop_first());
            if let Some(p) = spec_parse_quoted(rest@) {
                assert(old(out)@ + (seq![c] + p.0) =~= (old(out)@.push(c)) + p.0);
            }
        }
        r
    }
}

/// Reads one field from the front of `s`, appending its value to `out` and
/// returning the unread remainder.
fn parse_field<'a>(s: &'a str, out: &mut String) -> (r: Option<&'a str>)
    ensures
        (r is Some) == (spec_parse_field(s@) is Some),
        r matches Some(rem) ==> spec_parse_field(s@) matches Some(p) && final(out)@ == old(
            out,
        )@ + p.0 && rem@ == p.1,
{
    let n = s.unicode_len();
    if n > 0 && s.get_char(0) == '"' {
        let body = s.substring_char(1, n);
        proof {
            assert(body@ =~= s@.drop_first());
        }
        match parse_quoted(body, out) {
            None => None,
            Some(rem) => {
                let m = rem.unicode_len();
                if m == 0 {
                    Some(rem)
                } else {
                    let c0 = rem.get_char(0);
                    if c0 == ',' || c0 == '\r' || c0 == '\n' {
                        Some(rem)
                    } else {
                        None
                    }
                }
            },
        }
    } else {
        parse_unquoted(s, out)
    }
}

/// `s` with one leading row terminator removed.
fn skip_terminator<'a>(s: &'a str) -> (r: &'a str)
    ensures
        r@ == spec_skip_terminator(s@),
{
    let n = s.unicode_len();
    if n >= 2 && s.get_char(0) == '\r' && s.get_char(1) == '\n' {
        let r = s.substring_char(2, n);
        proof {
            assert(r@ =~= s@.skip(2));
        }
        r
    } else if n >= 1 && (s.get_char(0) == '\r' || s.get_char(0) == '\n') {
        let r = s.substring_char(1, n);
        proof {
            assert(r@ =~= s@.drop_first());
        }
        r
    } else {
        s
    }
}

/// Reads one row from the front of `s`, appending its fields to `out` and
/// returning the remainder after the row's terminator.
fn parse_row<'a>(s: &'a str, out: &mut Vec<String>) -> (r: Option<&'a str>)
    ensures
        (r is Some) == (spec_parse_row(s@) is Some),
        r matches Some(rem) ==> spec_parse_row(s@) matches Some(p) && final(out).deep_view()
            == old(out).deep_view() + p.0 && rem@ == p.1,
    decreases s@.len(),
{
    let mut field = String::new();
    match parse_field(s, &mut field) {
        None => None,
        Some(rest) => {
            let ghost fval = field@;
            out.push(field);
            proof {
                assert(out.deep_view() =~= old(out).deep_view().push(fval));
            }
            let m = rest.unicode_len();
            if m > 0 && rest.get_char(0) == ',' {
                proof {
                    lemma_parse_field_rest_len(s@);
                }
                let rest2 = rest.substring_char(1, m);
                let r = parse_row(rest2, out);
                proof {
                    assert(rest2@ =~= rest@.drop_first());
                    if let Some(q) = spec_parse_row(rest2@) {
                        assert(old(out).deep_view() + (seq![fval] + q.0) =~= (old(
                            out,
                        ).deep_view().push(fval)) + q.0);
                    }
                }
                r
            } else {
                let rem = skip_terminator(rest);
                proof {
                    assert(old(out).deep_view() + seq![fval] =~= old(out).deep_view().push(fval));
                }
                Some(rem)
            }
        },
    }
}

/// Reads all remaining rows of `s`, appending them to `out`; `false` is a
/// syntax error somewhere in `s`.
fn parse_csv_at<'a>(s: &'a str, out: &mut Vec<Vec<String>>) -> (ok: bool)
    ensures
        ok == (spec_parse_csv(s@) is Some),
        ok ==> (spec_parse_csv(s@) matches Some(rows) && final(out).deep_view() == old(
            out,
        ).deep_view() + rows),
    decreases s@.len(),
{
    let n = s.unicode_len();
    if n == 0 {
        proof {
            assert(old(out).deep_view() + Seq::<Seq<Seq<char>>>::empty() =~= old(
                out,
            ).deep_view());
        }
        return true;
    }
    let c = s.get_char(0);
    if c == '\r' || c == '\n' {
        let rest = skip_terminator(s);
        parse_csv_at(rest, out)
    } else {
        let mut row: Vec<String> = Vec::new();
        match parse_row(s, &mut row) {
            None => false,
            Some(rest) => {
                let ghost rview = row.deep_view();
                proof {
                    assert(rview =~= Seq::<Seq<char>>::empty() + rview);
                    lemma_parse_row_rest_len(s@);
                }
                out.push(row);
                proof {
                    assert(out.deep_view() =~= old(out).deep_view().push(rview));
                }
                let ok = parse_csv_at(rest, out);
                proof {
                    if let Some(rows) = spec_parse_csv(rest@) {
                        assert(old(out).deep_view() + (seq![rview] + rows) =~= (old(
                            out,
                        ).deep_view().push(rview)) + rows);
                    }
                }
                ok
            },
        }
    }
}

/// Splits a whole CSV document into its rows of raw field values.
///
/// `None` is a syntax error: an unterminated quoted field, a quote inside an
/// unquoted field, or text between a closing quote and the end of the field.
pub fn parse_csv(s: &str) -> (r: Option<Vec<Vec<String>>>)
    ensures
        (r is Some) == (spec_parse_csv(s@) is Some),
        r matches Some(rows) ==> spec_parse_csv(s@) matches Some(v) && rows.deep_view() == v,
{
    let mut out: Vec<Vec<String>> = Vec::new();
    let ghost empty = out.deep_view();
    if parse_csv_at(s, &mut out) {
        proof {
            if let Some(v) = spec_parse_csv(s@) {
                assert(empty + v =~= v);
            }
        }
        Some(out)
    } else {
        None
    }
}

/// True when a field value cannot stand unquoted in CSV text: it holds a
/// comma, a quote or a row terminator.
pub open spec fn spec_needs_quoting(f: Seq<char>) -> bool {
    exists|i: int| 0 <= i < f.len() && (f[i] == ',' || f[i] == '"' || is_term_char(f[i]))
}

/// The field value with every quote doubled.
pub open spec fn spec_escape_quotes(f: Seq<char>) -> Seq<char>
    decreases f.len(),
{
    if f.len() == 0 {
        Seq::empty()
    } else if f[0] == '"' {
        seq!['"', '"'] + spec_escape_quotes(f.drop_first())
    } else {
        seq![f[0]] + spec_escape_quotes(f.drop_first())
    }
}

/// One field as CSV text: quoted, with quotes doubled, when the value needs
/// it; the value itself otherwise.
pub open spec fn spec_encode_field(f: Seq<char>) -> Seq<char> {
    if spec_needs_quoting(f) {
        seq!['"'] + spec_escape_quotes(f) + seq!['"']
    } else {
        f
    }
}

/// One row as CSV text: the encoded fields joined by commas, with no
/// trailing terminator.
pub open spec fn spec_encode_row(fields: Seq<Seq<char>>) -> Seq<char>
    decreases fields.len(),
{
    if fields.len() == 0 {
        Seq::empty()
    } else if fields.len() == 1 {
        spec_encode_field(fields[0])
    } else {
        spec_encode_field(fields[0]) + seq![','] + spec_encode_row(fields.drop_first())
    }
}

proof fn lemma_escape_quotes_snoc(f: Seq<char>, c: char)
    ensures
        spec_escape_quotes(f.push(c)) == spec_escape_quotes(f) + (if c == '"' {
            seq!['"', '"']
        } else {
            seq![c]
        }),
    decreases f.len(),
{
    let piece = if c == '"' {
        seq!['"', '"']
    } else {
        seq![c]
    };
    if f.len() == 0 {
        assert(f.push(c)[0] == c);
        assert(f.push(c).drop_first() =~= Seq::<char>::empty());
        assert(spec_escape_quotes(Seq::<char>::empty()) == Seq::<char>::empty());
        assert(spec_escape_quotes(f) == Seq::<char>::empty());
        assert(spec_escape_quotes(f.push(c)) =~= piece);
        assert(spec_escape_quotes(f) + piece =~= piece);
    } else {
        lemma_escape_quotes_snoc(f.drop_first(), c);
        assert(f.push(c).drop_first() =~= f.drop_first().push(c));
        assert(f.push(c)[0] == f[0]);
        let head = if f[0] == '"' {
            seq!['"', '"']
        } else {
            seq![f[0]]
        };
        assert(spec_escape_quotes(f.push(c)) == head + (spec_escape_quotes(f.drop_first())
            + piece));
        assert(head + (spec_escape_quotes(f.drop_first()) + piece) =~= (head + spec_escape_quotes(
            f.drop_first(),
        )) + piece);
    }
}

proof fn lemma_encode_row_snoc(fields: Seq<Seq<char>>, f: Seq<char>)
    ensures
        spec_encode_row(fields.push(f)) == (if fields.len() == 0 {
            spec_encode_field(f)
        } else {
            spec_encode_row(fields) + seq![','] + spec_encode_field(f)
        }),
    decreases fields.len(),
{
    let w = fields.push(f);
    if fields.len() == 0 {
        assert(w.len() == 1 && w[0] == f);
    } else if fields.len() == 1 {
        assert(w.len() == 2 && w[0] == fields[0]);
        assert(w.drop_first() =~= seq![f]);
        assert(spec_encode_row(w.drop_first()) == spec_encode_field(f));
    } else {
        lemma_encode_row_snoc(fields.drop_first(), f);
        assert(w.drop_first() =~= fields.drop_first().push(f));
        assert(w[0] == fields[0]);
        let e0 = spec_encode_field(fields[0]);
        let erest = spec_encode_row(fields.drop_first());
        let ef = spec_encode_field(f);
        assert(spec_encode_row(w) == e0 + seq![','] + (erest + seq![','] + ef));
        assert(e0 + seq![','] + (erest + seq![','] + ef) =~= (e0 + seq![','] + erest) + seq![',']
            + ef);
    }
}

/// True when the field value holds a comma, quote or row terminator, so
/// that its CSV text must be quoted.
pub fn needs_quoting(f: &str) -> (r: bool)
    ensures
        r == spec_needs_quoting(f@),
{
    let n = f.unicode_len();
    let mut i: usize = 0;
    while i < n
        invariant
            i <= n,
            n == f@.len(),
            forall|k: int|
                0 <= k < i ==> !(f@[k] == ',' || f@[k] == '"' || is_term_char(f@[k])),
        decreases n - i,
    {
        let c = f.get_char(i);
        if c == ',' || c == '"' || c == '\r' || c == '\n' {
            proof {
                assert(0 <= i < f@.len() && (f@[i as int] == ',' || f@[i as int] == '"'
                    || is_term_char(f@[i as int])));
            }
            return true;
        }
        i += 1;
    }
    false
}

/// Appends the CSV text of one field to `out`.
fn encode_field_into(f: &str, out: &mut String)
    ensures
        final(out)@ == old(out)@ + spec_encode_field(f@),
{
    let n = f.unicode_len();
    if needs_quoting(f) {
        push_char(out, '"');
        let mut i: usize = 0;
        while i < n
            invariant
                i <= n,
                n == f@.len(),
                spec_needs_quoting(f@),
                out@ == old(out)@ + seq!['"'] + spec_escape_quotes(f@.take(i as int)),
            decreases n - i,
        {
            let c = f.get_char(i);
            proof {
                lemma_escape_quotes_snoc(f@.take(i as int), c);
                assert(f@.take(i as int + 1) =~= f@.take(i as int).push(c));
            }
            if c == '"' {
                push_char(out, '"');
                push_char(out, '"');
                proof {
                    assert(old(out)@ + seq!['"'] + (spec_escape_quotes(f@.take(i as int)) + seq![
                        '"',
                        '"',
                    ]) =~= (old(out)@ + seq!['"'] + spec_escape_quotes(f@.take(i as int))).push(
                        '"',
                    ).push('"'));
                }
            } else {
                push_char(out, c);
                proof {
                    assert(old(out)@ + seq!['"'] + (spec_escape_quotes(f@.take(i as int))
                        + seq![c]) =~= (old(out)@ + seq!['"'] + spec_escape_quotes(
                        f@.take(i as int),
                    )).push(c));
                }
            }
            i += 1;
        }
        push_char(out, '"');
        proof {
            assert(f@.take(n as int) =~= f@);
            assert((old(out)@ + seq!['"'] + spec_escape_quotes(f@)).push('"') =~= old(out)@
                + (seq!['"'] + spec_escape_quotes(f@) + seq!['"']));
        }
    } else {
        let mut i: usize = 0;
        while i < n
            invariant
                i <= n,
                n == f@.len(),
                out@ == old(out)@ + f@.take(i as int),
            decreases n - i,
        {
            let c = f.get_char(i);
            push_char(out, c);
            proof {
                assert(f@.take(i as int + 1) =~= f@.take(i as int).push(c));
                assert((old(out)@ + f@.take(i as int)).push(c) =~= old(out)@ + f@.take(
                    i as int,
                ).push(c));
            }
            i += 1;
        }
        proof {
            assert(f@.take(n as int) =~= f@);
        }
    }
}

/// One row of CSV text from raw field values, in order, with no trailing
/// terminator.
pub fn encode_fields(fields: &Vec<String>) -> (s: String)
    ensures
        s@ == spec_encode_row(fields.deep_view()),
{
    let mut out = String::new();
    let mut i: usize = 0;
    while i < fields.len()
        invariant
            i <= fields.len(),
            out@ == spec_encode_row(fields.deep_view().take(i as int)),
        decreases fields.len() - i,
    {
        let ghost done = fields.deep_view().take(i as int);
        if i > 0 {
            push_char(&mut out, ',');
        }
        encode_field_into(fields[i].as_str(), &mut out);
        proof {
            lemma_encode_row_snoc(done, fields.deep_view()[i as int]);
            assert(fields.deep_view().take(i as int + 1) =~= done.push(
                fields.deep_view()[i as int],
            ));
            assert(fields.deep_view()[i as int] == fields@[i as int]@);
            if i > 0 {
                assert(spec_encode_row(done).push(',') + spec_encode_field(fields@[i as int]@)
                    =~= spec_encode_row(done) + seq![','] + spec_encode_field(fields@[i as int]@));
            }
        }
        i += 1;
    }
    proof {
        assert(fields.deep_view().take(fields.len() as int) =~= fields.deep_view());
    }
    out
}

/// One row of CSV text from a record's seventeen field values.
pub fn encode_record(r: &Record) -> (s: String)
    ensures
        s@ == spec_encode_row(r@),
{
    let fields = r.to_fields();
    encode_fields(&fields)
}

proof fn lemma_rt_unquoted(f: Seq<char>, tail: Seq<char>)
    requires
        !spec_needs_quoting(f),
        tail.len() == 0 || is_field_end_char(tail[0]),
    ensures
        spec_parse_unquoted(f + tail) == Some((f, tail)),
    decreases f.len(),
{
    let s = f + tail;
    if f.len() == 0 {
        assert(s =~= tail);
        assert(f =~= Seq::<char>::empty());
        if tail.len() == 0 {
            assert(spec_parse_unquoted(s) == Some((Seq::<char>::empty(), s)));
        } else {
            assert(is_field_end_char(s[0]));
            assert(spec_parse_unquoted(s) == Some((Seq::<char>::empty(), s)));
        }
    } else {
        assert(s[0] == f[0]);
        assert(!(f[0] == ',' || f[0] == '"' || is_term_char(f[0]))) by {
            if f[0] == ',' || f[0] == '"' || is_term_char(f[0]) {
                assert(0 <= 0 < f.len() && (f[0] == ',' || f[0] == '"' || is_term_char(f[0])));
            }
        }
        assert(!spec_needs_quoting(f.drop_first())) by {
            if spec_needs_quoting(f.drop_first()) {
                let i = choose|i: int|
                    0 <= i < f.drop_first().len() && (f.drop_first()[i] == ','
                        || f.drop_first()[i] == '"' || is_term_char(f.drop_first()[i]));
                assert(f[i + 1] == f.drop_first()[i]);
                assert(spec_needs_quoting(f));
            }
        }
        lemma_rt_unquoted(f.drop_first(), tail);
        assert(s.drop_first() =~= f.drop_first() + tail);
        assert(seq![f[0]] + f.drop_first() =~= f);
    }
}

proof fn lemma_rt_quoted(f: Seq<char>, tail: Seq<char>)
    requires
        tail.len() == 0 || is_field_end_char(tail[0]),
    ensures
        spec_parse_quoted(spec_escape_quotes(f) + seq!['"'] + tail) == Some((f, tail)),
    decreases f.len(),
{
    let s = spec_escape_quotes(f) + seq!['"'] + tail;
    if f.len() == 0 {
        assert(spec_escape_quotes(f) == Seq::<char>::empty());
        assert(s =~= seq!['"'] + tail);
        assert(s[0] == '"');
        if s.len() >= 2 {
            assert(s[1] == tail[0]);
            assert(s[1] != '"');
        }
        assert(s.drop_first() =~= tail);
        assert(f =~= Seq::<char>::empty());
    } else if f[0] == '"' {
        lemma_rt_quoted(f.drop_first(), tail);
        assert(spec_escape_quotes(f) == seq!['"', '"'] + spec_escape_quotes(f.drop_first()));
        assert(s[0] == '"' && s[1] == '"');
        assert(s.len() >= 2);
        assert(s.skip(2) =~= spec_escape_quotes(f.drop_first()) + seq!['"'] + tail);
        assert(seq!['"'] + f.drop_first() =~= f);
    } else {
        lemma_rt_quoted(f.drop_first(), tail);
        assert(spec_escape_quotes(f) == seq![f[0]] + spec_escape_quotes(f.drop_first()));
        assert(s[0] == f[0] && f[0] != '"');
        assert(s.drop_first() =~= spec_escape_quotes(f.drop_first()) + seq!['"'] + tail);
        assert(seq![f[0]] + f.drop_first() =~= f);
    }
}

proof fn lemma_rt_field(f: Seq<char>, tail: Seq<char>)
    requires
        tail.len() == 0 || is_field_end_char(tail[0]),
    ensures
        spec_parse_field(spec_encode_field(f) + tail) == Some((f, tail)),
{
    let s = spec_encode_field(f) + tail;
    if spec_needs_quoting(f) {
        assert(s =~= seq!['"'] + (spec_escape_quotes(f) + seq!['"'] + tail));
        assert(s[0] == '"');
        assert(s.drop_first() =~= spec_escape_quotes(f) + seq!['"'] + tail);
        lemma_rt_quoted(f, tail);
    } else {
        assert(s =~= f + tail);
        lemma_rt_unquoted(f, tail);
        if f.len() > 0 {
            assert(!(f[0] == ',' || f[0] == '"' || is_term_char(f[0]))) by {
                if f[0] == ',' || f[0] == '"' || is_term_char(f[0]) {
                    assert(0 <= 0 < f.len() && (f[0] == ',' || f[0] == '"' || is_term_char(
                        f[0],
                    )));
                }
            }
            assert(s[0] == f[0]);
            assert(!(s.len() > 0 && s[0] == '"'));
        } else {
            assert(s =~= tail);
            if s.len() > 0 {
                assert(is_field_end_char(s[0]));
                assert(s[0] != '"');
            }
        }
    }
}

proof fn lemma_rt_row(fields: Seq<Seq<char>>, tail: Seq<char>)
    requires
        fields.len() >= 1,
        tail.len() == 0 || is_term_char(tail[0]),
    ensures
        spec_parse_row(spec_encode_row(fields) + tail) == Some(
            (fields, spec_skip_terminator(tail)),
        ),
    decreases fields.len(),
{
    if fields.len() == 1 {
        let s = spec_encode_row(fields) + tail;
        assert(s =~= spec_encode_field(fields[0]) + tail);
        lemma_rt_field(fields[0], tail);
        assert(spec_parse_field(s) == Some((fields[0], tail)));
        assert(!(tail.len() > 0 && tail[0] == ','));
        assert(seq![fields[0]] =~= fields);
    } else {
        let rest_fields = fields.drop_first();
        lemma_rt_row(rest_fields, tail);
        let mid = seq![','] + spec_encode_row(rest_fields) + tail;
        lemma_rt_field(fields[0], mid);
        let s = spec_encode_row(fields) + tail;
        assert(s =~= spec_encode_field(fields[0]) + mid);
        assert(spec_parse_field(s) == Some((fields[0], mid)));
        assert(mid[0] == ',');
        assert(mid.drop_first() =~= spec_encode_row(rest_fields) + tail);
        assert(seq![fields[0]] + rest_fields =~= fields);
    }
}

/// Law: encoding any non-empty sequence of field values as one CSV row and
/// parsing that row back yields exactly the same values, with nothing left
/// over — no value is altered, truncated or coerced on the way through.
pub proof fn lemma_row_round_trip(fields: Seq<Seq<char>>)
    requires
        fields.len() >= 1,
    ensures
        spec_parse_row(spec_encode_row(fields)) == Some((fields, Seq::<char>::empty())),
{
    lemma_rt_row(fields, Seq::empty());
    assert(spec_encode_row(fields) + Seq::<char>::empty() =~= spec_encode_row(fields));
    assert(spec_skip_terminator(Seq::<char>::empty()) == Seq::<char>::empty());
}

/// Law: a record's seventeen field values survive a CSV round trip intact —
/// encoding them as one row and parsing the row back yields the identical
/// seventeen values.
pub proof fn lemma_record_round_trip(fields: Seq<Seq<char>>)
    requires
        fields.len() == FIELD_COUNT,
    ensures
        spec_parse_row(spec_encode_row(fields)) == Some((fields, Seq::<char>::empty())),
{
    lemma_row_round_trip(fields);
}

/// A whole CSV document from rows of field values: each row's text followed
/// by one line feed.
pub open spec fn spec_encode_csv(rows: Seq<Seq<Seq<char>>>) -> Seq<char>
    decreases rows.len(),
{
    if rows.len() == 0 {
        Seq::empty()
    } else {
        spec_encode_row(rows[0]) + seq!['\n'] + spec_encode_csv(rows.drop_first())
    }
}

/// A row whose CSV text is a non-blank line: it has at least one field, and
/// not just the one empty field (whose text would be a blank line, which
/// the parser skips).
pub open spec fn spec_row_has_text(row: Seq<Seq<char>>) -> bool {
    row.len() >= 1 && !(row.len() == 1 && row[0].len() == 0)
}

proof fn lemma_encode_row_head(fields: Seq<Seq<char>>)
    requires
        spec_row_has_text(fields),
    ensures
        spec_encode_row(fields).len() > 0,
        !is_term_char(spec_encode_row(fields)[0]),
{
    let s = spec_encode_row(fields);
    let f0 = fields[0];
    let e0 = spec_encode_field(f0);
    if spec_needs_quoting(f0) {
        assert(e0[0] == '"');
        assert(s[0] == '"');
    } else if f0.len() > 0 {
        assert(!(f0[0] == ',' || f0[0] == '"' || is_term_char(f0[0]))) by {
            if f0[0] == ',' || f0[0] == '"' || is_term_char(f0[0]) {
                assert(0 <= 0 < f0.len() && (f0[0] == ',' || f0[0] == '"' || is_term_char(
                    f0[0],
                )));
            }
        }
        assert(e0 == f0);
        assert(s[0] == f0[0]);
    } else {
        // The first field is empty, so there is a second one and the row's
        // text begins with the separator.
        assert(fields.len() >= 2);
        assert(e0 == f0);
        assert(e0.len() == 0);
        assert(s == e0 + seq![','] + spec_encode_row(fields.drop_first()));
        assert(s[0] == ',');
    }
}

/// Law: a whole document survives a CSV round trip — encoding any rows of
/// field values, one line each, and parsing the document back yields
/// exactly the same rows. The one proviso: no row may be a single empty
/// field, whose text would be a blank line, which the parser skips.
pub proof fn lemma_csv_document_round_trip(rows: Seq<Seq<Seq<char>>>)
    requires
        forall|i: int| 0 <= i < rows.len() ==> spec_row_has_text(#[trigger] rows[i]),
    ensures
        spec_parse_csv(spec_encode_csv(rows)) == Some(rows),
    decreases rows.len(),
{
    if rows.len() == 0 {
        assert(spec_encode_csv(rows).len() == 0);
        assert(rows =~= Seq::<Seq<Seq<char>>>::empty());
    } else {
        let r0 = rows[0];
        let rest = rows.drop_first();
        assert(forall|i: int| 0 <= i < rest.len() ==> spec_row_has_text(#[trigger] rest[i])) by {
            assert forall|i: int| 0 <= i < rest.len() implies spec_row_has_text(
                #[trigger] rest[i],
            ) by {
                assert(rest[i] == rows[i + 1]);
            }
        }
        lemma_csv_document_round_trip(rest);
        lemma_encode_row_head(r0);
        let tail = seq!['\n'] + spec_encode_csv(rest);
        lemma_rt_row(r0, tail);
        let s = spec_encode_csv(rows);
        assert(s =~= spec_encode_row(r0) + tail);
        assert(s.len() > 0);
        assert(s[0] == spec_encode_row(r0)[0]);
        assert(!is_term_char(s[0]));
        assert(spec_parse_row(s) == Some((r0, spec_skip_terminator(tail))));
        assert(tail[0] == '\n');
        assert(spec_skip_terminator(tail) =~= spec_encode_csv(rest));
        assert(seq![r0] + rest =~= rows);
    }
}

/// The data rows of a parsed document: the first row is the column-header
/// row and is discarded, whatever it holds; every later row is retained.
pub open spec fn spec_retained(rows: Seq<Seq<Seq<char>>>) -> Seq<Seq<Seq<char>>> {
    if rows.len() == 0 {
        rows
    } else {
        rows.drop_first()
    }
}

/// The decoded records of the document suffix `s`, read row by row:
/// `first` marks that the column-header row has not been consumed yet.
/// Faults are reported in row order — the first row that fails to parse,
/// or the first retained row without exactly seventeen fields, decides the
/// error kind.
pub open spec fn spec_decode_rows(s: Seq<char>, first: bool) -> Result<
    Seq<Seq<Seq<char>>>,
    CsvError,
>
    decreases s.len(),
{
    if s.len() == 0 {
        Ok(Seq::empty())
    } else if is_term_char(s[0]) {
        spec_decode_rows(spec_skip_terminator(s), first)
    } else {
        match spec_parse_row(s) {
            None => Err(CsvError::Syntax),
            Some(p) => {
                if !first && p.0.len() != FIELD_COUNT {
                    Err(CsvError::FieldCount)
                } else {
                    proof {
                        lemma_parse_row_rest_len(s);
                    }
                    match spec_decode_rows(p.1, false) {
                        Ok(rows) => Ok(
                            if first {
                                rows
                            } else {
                                seq![p.0] + rows
                            },
                        ),
                        Err(e) => Err(e),
                    }
                }
            },
        }
    }
}

/// The decoded records of a whole CSV document under the seventeen-column
/// schema: the retained rows when the document parses and each retained row
/// has exactly seventeen fields, and the first fault in row order
/// otherwise.
pub open spec fn spec_decode(s: Seq<char>) -> Result<Seq<Seq<Seq<char>>>, CsvError> {
    spec_decode_rows(s, true)
}

/// Every row has exactly the seventeen fields of the schema.
pub open spec fn spec_rows_ok(rows: Seq<Seq<Seq<char>>>) -> bool {
    forall|i: int| 0 <= i < rows.len() ==> (#[trigger] rows[i]).len() == FIELD_COUNT
}

proof fn lemma_rows_ok_cons(row: Seq<Seq<char>>, rows: Seq<Seq<Seq<char>>>)
    ensures
        spec_rows_ok(seq![row] + rows) == (row.len() == FIELD_COUNT && spec_rows_ok(rows)),
{
    let w = seq![row] + rows;
    assert(w[0] == row);
    if spec_rows_ok(w) {
        assert forall|i: int| 0 <= i < rows.len() implies (#[trigger] rows[i]).len()
            == FIELD_COUNT by {
            assert(w[i + 1] == rows[i]);
        }
    }
    if row.len() == FIELD_COUNT && spec_rows_ok(rows) {
        assert forall|i: int| 0 <= i < w.len() implies (#[trigger] w[i]).len() == FIELD_COUNT by {
            if i == 0 {
                assert(w[0] == row);
            } else {
                assert(w[i] == rows[i - 1]);
            }
        }
    }
}

/// Law: row-ordered decoding agrees with whole-document parsing. When the
/// document parses, decoding yields exactly the retained rows if every one
/// of them has seventeen fields, and the field-count fault otherwise; when
/// the document does not parse, decoding fails.
pub proof fn lemma_decode_agrees_with_parse(s: Seq<char>, first: bool)
    ensures
        spec_parse_csv(s) matches Some(all) ==> ({
            let data = if first {
                spec_retained(all)
            } else {
                all
            };
            if spec_rows_ok(data) {
                spec_decode_rows(s, first) == Ok::<Seq<Seq<Seq<char>>>, CsvError>(data)
            } else {
                spec_decode_rows(s, first) == Err::<Seq<Seq<Seq<char>>>, CsvError>(
                    CsvError::FieldCount,
                )
            }
        }),
        spec_parse_csv(s) is None ==> spec_decode_rows(s, first) is Err,
    decreases s.len(),
{
    if s.len() == 0 {
    } else if is_term_char(s[0]) {
        lemma_decode_agrees_with_parse(spec_skip_terminator(s), first);
    } else {
        lemma_parse_row_rest_len(s);
        match spec_parse_row(s) {
            None => {},
            Some(p) => {
                lemma_decode_agrees_with_parse(p.1, false);
                match spec_parse_csv(p.1) {
                    None => {},
                    Some(rrows) => {
                        let all = seq![p.0] + rrows;
                        assert(spec_parse_csv(s) == Some(all));
                        assert(all[0] == p.0);
                        assert(all.drop_first() =~= rrows);
                        lemma_rows_ok_cons(p.0, rrows);
                        if first {
                            assert(spec_retained(all) == rrows);
                        }
                    },
                }
            },
        }
    }
}

/// Decodes the remaining rows of `s` into records appended to `out`;
/// `first` marks that the header row is still to be consumed.
fn decode_rows_at<'a>(s: &'a str, first: bool, out: &mut Vec<Record>) -> (r: Result<
    (),
    CsvError,
>)
    ensures
        (r is Ok) == (spec_decode_rows(s@, first) is Ok),
        r is Ok ==> (spec_decode_rows(s@, first) matches Ok(rows) && final(out).deep_view()
            == old(out).deep_view() + rows),
        r matches Err(e) ==> spec_decode_rows(s@, first) == Err::<Seq<Seq<Seq<char>>>, CsvError>(
            e,
        ),
    decreases s@.len(),
{
    let n = s.unicode_len();
    if n == 0 {
        proof {
            assert(old(out).deep_view() + Seq::<Seq<Seq<char>>>::empty() =~= old(
                out,
            ).deep_view());
        }
        return Ok(());
    }
    let c = s.get_char(0);
    if c == '\r' || c == '\n' {
        let rest = skip_terminator(s);
        return decode_rows_at(rest, first, out);
    }
    let mut row: Vec<String> = Vec::new();
    match parse_row(s, &mut row) {
        None => Err(CsvError::Syntax),
        Some(rest) => {
            let ghost rview = row.deep_view();
            proof {
                assert(rview =~= Seq::<Seq<char>>::empty() + rview);
                lemma_parse_row_rest_len(s@);
            }
            if !first {
                if row.len() != FIELD_COUNT {
                    return Err(CsvError::FieldCount);
                }
                let rec = Record::from_fields(&row);
                let ghost prev = out.deep_view();
                out.push(rec);
                proof {
                    assert(out.deep_view() =~= prev.push(rview));
                }
            }
            let r = decode_rows_at(rest, false, out);
            proof {
                if let Ok(rows) = spec_decode_rows(rest@, false) {
                    if !first {
                        assert(old(out).deep_view() + (seq![rview] + rows) =~= (old(
                            out,
                        ).deep_view().push(rview)) + rows);
                    }
                }
            }
            r
        },
    }
}

/// Decodes a whole CSV document into records.
///
/// The first row is treated as the column-header row and discarded; every
/// later row must have exactly seventeen fields and becomes one record, in
/// input order. The whole operation fails on the first malformed row, in
/// row order, with no partial result.
pub fn decode_records(s: &str) -> (r: Result<Vec<Record>, CsvError>)
    ensures
        (r is Ok) == (spec_decode(s@) is Ok),
        r matches Ok(recs) ==> (spec_decode(s@) matches Ok(rows) && recs.deep_view() == rows),
        r matches Err(e) ==> spec_decode(s@) == Err::<Seq<Seq<Seq<char>>>, CsvError>(e),
{
    let mut recs: Vec<Record> = Vec::new();
    let ghost empty = recs.deep_view();
    match decode_rows_at(s, true, &mut recs) {
        Ok(()) => {
            proof {
                if let Ok(rows) = spec_decode(s@) {
                    assert(empty + rows =~= rows);
                }
            }
            Ok(recs)
        },
        Err(e) => Err(e),
    }
}

} // verus!

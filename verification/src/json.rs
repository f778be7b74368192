use vstd::prelude::*;
use vstd::string::StrSliceExecFns;
use vstd::string::StringExecFns;

use crate::record::FIELD_COUNT;
use crate::record::Record;
use crate::strutil::push_char;

verus! {

/// The hexadecimal digit for `n`, lower case.
pub open spec fn spec_hex_digit(n: int) -> char {
    if n == 0 {
        '0'
    } else if n == 1 {
        '1'
    } else if n == 2 {
        '2'
    } else if n == 3 {
        '3'
    } else if n == 4 {
        '4'
    } else if n == 5 {
        '5'
    } else if n == 6 {
        '6'
    } else if n == 7 {
        '7'
    } else if n == 8 {
        '8'
    } else if n == 9 {
        '9'
    } else if n == 10 {
        'a'
    } else if n == 11 {
        'b'
    } else if n == 12 {
        'c'
    } else if n == 13 {
        'd'
    } else if n == 14 {
        'e'
    } else {
        'f'
    }
}

/// JSON text of one character inside a string literal: quote and backslash
/// take a backslash escape, the named control characters their short
/// escapes, any other control character a \u00XX escape, and every other
/// character stands as itself.
pub open spec fn spec_escape_char(c: char) -> Seq<char> {
    if c == '"' {
        seq!['\\', '"']
    } else if c == '\\' {
        seq!['\\', '\\']
    } else if c == '\u{8}' {
        seq!['\\', 'b']
    } else if c == '\u{c}' {
        seq!['\\', 'f']
    } else if c == '\n' {
        seq!['\\', 'n']
    } else if c == '\r' {
        seq!['\\', 'r']
    } else if c == '\t' {
        seq!['\\', 't']
    } else if (c as u32) < 0x20 {
        seq!['\\', 'u', '0', '0', spec_hex_digit(c as u32 as int / 16), spec_hex_digit(
            c as u32 as int % 16,
        )]
    } else {
        seq![c]
    }
}

/// JSON text of a string value: each character escaped as
/// [`spec_escape_char`] says, with no surrounding quotes.
pub open spec fn spec_escape_string(s: Seq<char>) -> Seq<char>
    decreases s.len(),
{
    if s.len() == 0 {
        Seq::empty()
    } else {
        spec_escape_char(s[0]) + spec_escape_string(s.drop_first())
    }
}

proof fn lemma_escape_string_snoc(s: Seq<char>, c: char)
    ensures
        spec_escape_string(s.push(c)) == spec_escape_string(s) + spec_escape_char(c),
    decreases s.len(),
{
    if s.len() == 0 {
        assert(s.push(c)[0] == c);
        assert(s.push(c).drop_first() =~= Seq::<char>::empty());
        assert(spec_escape_string(Seq::<char>::empty()) == Seq::<char>::empty());
        assert(spec_escape_string(s) == Seq::<char>::empty());
        assert(spec_escape_string(s.push(c)) =~= spec_escape_char(c));
        assert(spec_escape_string(s) + spec_escape_char(c) =~= spec_escape_char(c));
    } else {
        lemma_escape_string_snoc(s.drop_first(), c);
        assert(s.push(c).drop_first() =~= s.drop_first().push(c));
        assert(s.push(c)[0] == s[0]);
        assert(spec_escape_char(s[0]) + (spec_escape_string(s.drop_first()) + spec_escape_char(
            c,
        )) =~= (spec_escape_char(s[0]) + spec_escape_string(s.drop_first())) + spec_escape_char(
            c,
        ));
    }
}

/// The hexadecimal digit character for `n`.
fn hex_digit(n: u32) -> (c: char)
    requires
        n < 16,
    ensures
        c == spec_hex_digit(n as int),
{
    if n == 0 {
        '0'
    } else if n == 1 {
        '1'
    } else if n == 2 {
        '2'
    } else if n == 3 {
        '3'
    } else if n == 4 {
        '4'
    } else if n == 5 {
        '5'
    } else if n == 6 {
        '6'
    } else if n == 7 {
        '7'
    } else if n == 8 {
        '8'
    } else if n == 9 {
        '9'
    } else if n == 10 {
        'a'
    } else if n == 11 {
        'b'
    } else if n == 12 {
        'c'
    } else if n == 13 {
        'd'
    } else if n == 14 {
        'e'
    } else {
        'f'
    }
}

/// Appends the JSON escape of one character to `out`.
fn push_escaped_char(out: &mut String, c: char)
    ensures
        final(out)@ == old(out)@ + spec_escape_char(c),
{
    if c == '"' {
        push_char(out, '\\');
        push_char(out, '"');
        proof {
            assert(old(out)@.push('\\').push('"') =~= old(out)@ + spec_escape_char(c));
        }
    } else if c == '\\' {
        push_char(out, '\\');
        push_char(out, '\\');
        proof {
            assert(old(out)@.push('\\').push('\\') =~= old(out)@ + spec_escape_char(c));
        }
    } else if c == '\u{8}' {
        push_char(out, '\\');
        push_char(out, 'b');
        proof {
            assert(old(out)@.push('\\').push('b') =~= old(out)@ + spec_escape_char(c));
        }
    } else if c == '\u{c}' {
        push_char(out, '\\');
        push_char(out, 'f');
        proof {
            assert(old(out)@.push('\\').push('f') =~= old(out)@ + spec_escape_char(c));
        }
    } else if c == '\n' {
        push_char(out, '\\');
        push_char(out, 'n');
        proof {
            assert(old(out)@.push('\\').push('n') =~= old(out)@ + spec_escape_char(c));
        }
    } else if c == '\r' {
        push_char(out, '\\');
        push_char(out, 'r');
        proof {
            assert(old(out)@.push('\\').push('r') =~= old(out)@ + spec_escape_char(c));
        }
    } else if c == '\t' {
        push_char(out, '\\');
        push_char(out, 't');
        proof {
            assert(old(out)@.push('\\').push('t') =~= old(out)@ + spec_escape_char(c));
        }
    } else if (c as u32) < 0x20 {
        let code = c as u32;
        push_char(out, '\\');
        push_char(out, 'u');
        push_char(out, '0');
        push_char(out, '0');
        push_char(out, hex_digit(code / 16));
        push_char(out, hex_digit(code % 16));
        proof {
            assert(old(out)@.push('\\').push('u').push('0').push('0').push(
                spec_hex_digit(code as int / 16),
            ).push(spec_hex_digit(code as int % 16)) =~= old(out)@ + spec_escape_char(c));
        }
    } else {
        push_char(out, c);
        proof {
            assert(old(out)@.push(c) =~= old(out)@ + spec_escape_char(c));
        }
    }
}

/// Appends the JSON escape of a whole string value to `out`.
fn append_escaped(out: &mut String, s: &str)
    ensures
        final(out)@ == old(out)@ + spec_escape_string(s@),
{
    let n = s.unicode_len();
    let mut i: usize = 0;
    while i < n
        invariant
            i <= n,
            n == s@.len(),
            out@ == old(out)@ + spec_escape_string(s@.take(i as int)),
        decreases n - i,
    {
        let c = s.get_char(i);
        push_escaped_char(out, c);
        proof {
            lemma_escape_string_snoc(s@.take(i as int), c);
            assert(s@.take(i as int + 1) =~= s@.take(i as int).push(c));
            assert(old(out)@ + (spec_escape_string(s@.take(i as int)) + spec_escape_char(c)) =~= (
            old(out)@ + spec_escape_string(s@.take(i as int))) + spec_escape_char(c));
        }
        i += 1;
    }
    proof {
        assert(s@.take(n as int) =~= s@);
    }
}

/// The seventeen JSON member names, in schema order: the source table's
/// literal column labels, preserved untranslated.
pub open spec fn spec_field_keys() -> Seq<Seq<char>> {
    seq![
        "市町村コード"@,
        "都道府県名及び市町村名"@,
        "市町村内の番号"@,
        "施設・場所名"@,
        "住所"@,
        "洪水"@,
        "崖崩れ、土石流及び地滑り"@,
        "高潮"@,
        "地震"@,
        "津波"@,
        "大規模火事"@,
        "内水氾濫"@,
        "火山現象"@,
        "指定避難所との住所同一"@,
        "緯度"@,
        "経度"@,
        "備考"@,
    ]
}

/// The JSON member name at schema position `i`.
fn field_key(i: usize) -> (k: &'static str)
    requires
        i < FIELD_COUNT,
    ensures
        k@ == spec_field_keys()[i as int],
{
    if i == 0 {
        "市町村コード"
    } else if i == 1 {
        "都道府県名及び市町村名"
    } else if i == 2 {
        "市町村内の番号"
    } else if i == 3 {
        "施設・場所名"
    } else if i == 4 {
        "住所"
    } else if i == 5 {
        "洪水"
    } else if i == 6 {
        "崖崩れ、土石流及び地滑り"
    } else if i == 7 {
        "高潮"
    } else if i == 8 {
        "地震"
    } else if i == 9 {
        "津波"
    } else if i == 10 {
        "大規模火事"
    } else if i == 11 {
        "内水氾濫"
    } else if i == 12 {
        "火山現象"
    } else if i == 13 {
        "指定避難所との住所同一"
    } else if i == 14 {
        "緯度"
    } else if i == 15 {
        "経度"
    } else {
        "備考"
    }
}

/// One member line of a record object, at its four-space indent:
/// four spaces, the quoted key, a colon and space, the quoted escaped value.
pub open spec fn spec_member_line(key: Seq<char>, value: Seq<char>) -> Seq<char> {
    "    \""@ + key + "\": \""@ + spec_escape_string(value) + "\""@
}

/// The member lines of one record object from schema position `i` on,
/// joined by comma-and-newline, in schema order.
pub open spec fn spec_members_from(r: Seq<Seq<char>>, i: int) -> Seq<char>
    decreases FIELD_COUNT - i,
{
    if i < 0 || i >= FIELD_COUNT {
        Seq::empty()
    } else if i == FIELD_COUNT - 1 {
        spec_member_line(spec_field_keys()[i], r[i])
    } else {
        spec_member_line(spec_field_keys()[i], r[i]) + ",\n"@ + spec_members_from(r, i + 1)
    }
}

/// The JSON object of one record, indented for a place inside the array:
/// braces at two spaces, one member line per field, in schema order.
pub open spec fn spec_record_json(r: Seq<Seq<char>>) -> Seq<char> {
    "  {\n"@ + spec_members_from(r, 0) + "\n  }"@
}

/// The record objects joined by comma-and-newline.
pub open spec fn spec_array_body(rs: Seq<Seq<Seq<char>>>) -> Seq<char>
    decreases rs.len(),
{
    if rs.len() == 0 {
        Seq::empty()
    } else if rs.len() == 1 {
        spec_record_json(rs[0])
    } else {
        spec_record_json(rs[0]) + ",\n"@ + spec_array_body(rs.drop_first())
    }
}

/// The JSON document for a sequence of records: a pretty-printed array of
/// their objects, in order; no records render as the empty array "[]".
pub open spec fn spec_records_json(rs: Seq<Seq<Seq<char>>>) -> Seq<char> {
    if rs.len() == 0 {
        "[]"@
    } else {
        "[\n"@ + spec_array_body(rs) + "\n]"@
    }
}

/// Law: the object text of a record lists the seventeen schema members in
/// schema order — from member `i` on, the text is the line for schema key
/// `i` holding field value `i`, then a separator and the remaining members.
/// The member names come from the fixed schema alone, never from the input.
pub proof fn lemma_member_order(r: Seq<Seq<char>>, i: int)
    requires
        0 <= i < FIELD_COUNT,
    ensures
        spec_record_json(r) == "  {\n"@ + spec_members_from(r, 0) + "\n  }"@,
        i < FIELD_COUNT - 1 ==> spec_members_from(r, i) == spec_member_line(
            spec_field_keys()[i],
            r[i],
        ) + ",\n"@ + spec_members_from(r, i + 1),
        i == FIELD_COUNT - 1 ==> spec_members_from(r, i) == spec_member_line(
            spec_field_keys()[i],
            r[i],
        ),
{
}

proof fn lemma_array_body_snoc(rs: Seq<Seq<Seq<char>>>, r: Seq<Seq<char>>)
    ensures
        spec_array_body(rs.push(r)) == (if rs.len() == 0 {
            spec_record_json(r)
        } else {
            spec_array_body(rs) + ",\n"@ + spec_record_json(r)
        }),
    decreases rs.len(),
{
    let w = rs.push(r);
    if rs.len() == 0 {
        assert(w.len() == 1 && w[0] == r);
    } else if rs.len() == 1 {
        assert(w.len() == 2 && w[0] == rs[0]);
        assert(w.drop_first() =~= seq![r]);
        assert(spec_array_body(w.drop_first()) == spec_record_json(r));
    } else {
        lemma_array_body_snoc(rs.drop_first(), r);
        assert(w.drop_first() =~= rs.drop_first().push(r));
        assert(w[0] == rs[0]);
        let b0 = spec_record_json(rs[0]);
        let brest = spec_array_body(rs.drop_first());
        let br = spec_record_json(r);
        assert(spec_array_body(w) == b0 + ",\n"@ + (brest + ",\n"@ + br));
        assert(b0 + ",\n"@ + (brest + ",\n"@ + br) =~= (b0 + ",\n"@ + brest) + ",\n"@ + br);
    }
}

/// Appends one member line to `out`.
fn append_member_line(out: &mut String, key: &str, value: &str)
    ensures
        final(out)@ == old(out)@ + spec_member_line(key@, value@),
{
    out.append("    \"");
    out.append(key);
    out.append("\": \"");
    append_escaped(out, value);
    out.append("\"");
    proof {
        assert(old(out)@ + ("    \""@ + key@ + "\": \""@ + spec_escape_string(value@) + "\""@)
            =~= (((old(out)@ + "    \""@ + key@) + "\": \""@) + spec_escape_string(value@))
            + "\""@);
    }
}

/// Appends the member lines of `r` from schema position `i` on.
fn append_members_from(out: &mut String, r: &Record, i: usize)
    requires
        i <= FIELD_COUNT,
    ensures
        final(out)@ == old(out)@ + spec_members_from(r@, i as int),
    decreases FIELD_COUNT - i,
{
    if i >= FIELD_COUNT {
        proof {
            assert(old(out)@ + Seq::<char>::empty() =~= old(out)@);
        }
        return ;
    }
    let key = field_key(i);
    append_member_line(out, key, r.field(i).as_str());
    if i < FIELD_COUNT - 1 {
        out.append(",\n");
        append_members_from(out, r, i + 1);
        proof {
            let line = spec_member_line(spec_field_keys()[i as int], r@[i as int]);
            assert(old(out)@ + (line + ",\n"@ + spec_members_from(r@, i as int + 1)) =~= ((old(
                out,
            )@ + line) + ",\n"@) + spec_members_from(r@, i as int + 1));
        }
    }
}

/// Appends the JSON object of one record to `out`.
fn append_record_json(out: &mut String, r: &Record)
    ensures
        final(out)@ == old(out)@ + spec_record_json(r@),
{
    out.append("  {\n");
    append_members_from(out, r, 0);
    out.append("\n  }");
    proof {
        assert(old(out)@ + ("  {\n"@ + spec_members_from(r@, 0) + "\n  }"@) =~= ((old(out)@
            + "  {\n"@) + spec_members_from(r@, 0)) + "\n  }"@);
    }
}

/// The whole JSON document for the decoded records: a pretty-printed array
/// of objects, one per record, in input order.
pub fn records_to_json(records: &Vec<Record>) -> (s: String)
    ensures
        s@ == spec_records_json(records.deep_view()),
{
    let n = records.len();
    if n == 0 {
        return String::from_str("[]");
    }
    let mut out = String::from_str("[\n");
    let mut i: usize = 0;
    while i < n
        invariant
            i <= n,
            n == records.len(),
            n > 0,
            out@ == "[\n"@ + spec_array_body(records.deep_view().take(i as int)),
        decreases n - i,
    {
        let ghost done = records.deep_view().take(i as int);
        if i > 0 {
            out.append(",\n");
        }
        append_record_json(&mut out, &records[i]);
        proof {
            lemma_array_body_snoc(done, records.deep_view()[i as int]);
            assert(records.deep_view().take(i as int + 1) =~= done.push(
                records.deep_view()[i as int],
            ));
            assert(records.deep_view()[i as int] == records@[i as int]@);
            if i > 0 {
                assert((("[\n"@ + spec_array_body(done)) + ",\n"@) + spec_record_json(
                    records@[i as int]@,
                ) =~= "[\n"@ + (spec_array_body(done) + ",\n"@ + spec_record_json(
                    records@[i as int]@,
                )));
            } else {
                assert(spec_array_body(done) == Seq::<char>::empty());
                assert(("[\n"@ + spec_array_body(done)) + spec_record_json(records@[i as int]@)
                    =~= "[\n"@ + spec_record_json(records@[i as int]@));
            }
        }
        i += 1;
    }
    out.append("\n]");
    proof {
        assert(records.deep_view().take(n as int) =~= records.deep_view());
        assert(("[\n"@ + spec_array_body(records.deep_view())) + "\n]"@ =~= "[\n"@
            + spec_array_body(records.deep_view()) + "\n]"@);
    }
    out
}

} // verus!

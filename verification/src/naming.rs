use vstd::prelude::*;
use vstd::string::StrSliceExecFns;
use vstd::string::StringExecFns;

verus! {

/// Why no output file name could be derived.
///
/// `NoStem` is a path without an extractable file stem: empty, ending in a
/// separator, or naming a directory with dots alone. `ClockFormat` is a
/// wall-clock reading whose rendering is not the expected fourteen digits.
#[derive(Clone, Copy, Debug, PartialEq, Eq, Structural)]
pub enum NameError {
    NoStem,
    ClockFormat,
}

impl NameError {
    /// A short description of the fault, for reporting.
    pub fn message(&self) -> (m: &'static str)
        ensures
            m@ == (match *self {
                NameError::NoStem => "failed to read file name"@,
                NameError::ClockFormat => "clock produced an unusable timestamp"@,
            }),
    {
        match *self {
            NameError::NoStem => "failed to read file name",
            NameError::ClockFormat => "clock produced an unusable timestamp",
        }
    }
}

/// The position of the last occurrence of `c` in `s`, if any.
pub open spec fn spec_last_index_of(s: Seq<char>, c: char) -> Option<int>
    decreases s.len(),
{
    if s.len() == 0 {
        None
    } else if s.last() == c {
        Some(s.len() - 1)
    } else {
        spec_last_index_of(s.drop_last(), c)
    }
}

/// The final path segment: everything after the last separator, or the
/// whole path when it has none.
pub open spec fn spec_file_name(path: Seq<char>) -> Seq<char> {
    match spec_last_index_of(path, '/') {
        Some(i) => path.skip(i + 1),
        None => path,
    }
}

/// A file name without its extension: the part before the last dot, unless
/// the only dot is the leading one of a hidden file, or there is none.
pub open spec fn spec_strip_extension(name: Seq<char>) -> Seq<char> {
    match spec_last_index_of(name, '.') {
        Some(i) => if i > 0 {
            name.take(i)
        } else {
            name
        },
        None => name,
    }
}

/// A name made of dots alone, such as the current- and parent-directory
/// names.
pub open spec fn spec_all_dots(name: Seq<char>) -> bool {
    forall|i: int| 0 <= i < name.len() ==> name[i] == '.'
}

/// The stem of a path: its final segment without the extension. A path has
/// no stem when its final segment is empty — an empty path, or one ending
/// in a separator — or is dots alone, which names a directory, not a file.
pub open spec fn spec_stem(path: Seq<char>) -> Option<Seq<char>> {
    let name = spec_file_name(path);
    if name.len() == 0 || spec_all_dots(name) {
        None
    } else {
        Some(spec_strip_extension(name))
    }
}

/// A decimal digit.
pub open spec fn is_digit_char(c: char) -> bool {
    '0' <= c && c <= '9'
}

/// A well-formed timestamp rendering: exactly fourteen decimal digits
/// (four-digit year, then two digits each for month, day, hour, minute and
/// second, with no separators).
pub open spec fn spec_is_timestamp(s: Seq<char>) -> bool {
    s.len() == 14 && forall|i: int| 0 <= i < s.len() ==> is_digit_char(#[trigger] s[i])
}

/// The derived output file name for a stem and a timestamp:
/// `<stem>_<timestamp>.json`.
pub open spec fn spec_output_name(stem: Seq<char>, timestamp: Seq<char>) -> Seq<char> {
    stem + "_"@ + timestamp + ".json"@
}

/// An output file name of the promised shape: the stem, an underscore,
/// fourteen digits, and the ".json" extension.
pub open spec fn spec_matches_output_pattern(name: Seq<char>, stem: Seq<char>) -> bool {
    exists|ts: Seq<char>| spec_is_timestamp(ts) && name == spec_output_name(stem, ts)
}

/// Law: a name built from any stem and any fourteen-digit timestamp matches
/// the output-name pattern for that stem.
pub proof fn lemma_output_name_pattern(stem: Seq<char>, timestamp: Seq<char>)
    requires
        spec_is_timestamp(timestamp),
    ensures
        spec_matches_output_pattern(spec_output_name(stem, timestamp), stem),
{
    assert(spec_is_timestamp(timestamp) && spec_output_name(stem, timestamp) == spec_output_name(
        stem,
        timestamp,
    ));
}

/// The position just after the last occurrence of `c` in `s`: `None` when
/// `c` does not occur.
fn last_index_of(s: &str, c: char) -> (r: Option<usize>)
    ensures
        r matches Some(i) ==> spec_last_index_of(s@, c) == Some(i as int) && i < s@.len(),
        r is None ==> spec_last_index_of(s@, c) is None,
{
    let n = s.unicode_len();
    let mut j = n;
    proof {
        assert(s@.take(n as int) =~= s@);
    }
    loop
        invariant
            j <= n,
            n == s@.len(),
            spec_last_index_of(s@, c) == spec_last_index_of(s@.take(j as int), c),
        decreases j,
    {
        if j == 0 {
            return None;
        }
        let ch = s.get_char(j - 1);
        proof {
            assert(s@.take(j as int).last() == s@[j - 1]);
            assert(s@.take(j as int).drop_last() =~= s@.take(j - 1));
        }
        if ch == c {
            return Some(j - 1);
        }
        j -= 1;
    }
}

/// True when `s` is made of dots alone (and possibly empty).
fn is_all_dots(s: &str) -> (r: bool)
    ensures
        r == spec_all_dots(s@),
{
    let n = s.unicode_len();
    let mut i: usize = 0;
    while i < n
        invariant
            i <= n,
            n == s@.len(),
            forall|k: int| 0 <= k < i ==> s@[k] == '.',
        decreases n - i,
    {
        if s.get_char(i) != '.' {
            proof {
                assert(0 <= i < s@.len() && s@[i as int] != '.');
            }
            return false;
        }
        i += 1;
    }
    true
}

/// The stem of a path: the final separator-delimited segment, without its
/// extension. `None` when the final segment is empty or dots alone.
pub fn file_stem(path: &str) -> (r: Option<String>)
    ensures
        (r is Some) == (spec_stem(path@) is Some),
        r matches Some(st) ==> spec_stem(path@) == Some(st@),
{
    let n = path.unicode_len();
    let name = match last_index_of(path, '/') {
        Some(i) => {
            let nm = path.substring_char(i + 1, n);
            proof {
                assert(nm@ =~= path@.skip(i + 1));
            }
            nm
        },
        None => path,
    };
    let m = name.unicode_len();
    if m == 0 {
        return None;
    }
    if is_all_dots(name) {
        return None;
    }
    let stem = match last_index_of(name, '.') {
        Some(i) => if i > 0 {
            let st = name.substring_char(0, i);
            proof {
                assert(st@ =~= name@.take(i as int));
            }
            st
        } else {
            name
        },
        None => name,
    };
    Some(stem.to_owned())
}

/// True when `s` is exactly fourteen decimal digits.
pub fn is_timestamp(s: &str) -> (r: bool)
    ensures
        r == spec_is_timestamp(s@),
{
    let n = s.unicode_len();
    if n != 14 {
        return false;
    }
    let mut i: usize = 0;
    while i < n
        invariant
            i <= n,
            n == s@.len(),
            n == 14,
            forall|k: int| 0 <= k < i ==> is_digit_char(#[trigger] s@[k]),
        decreases n - i,
    {
        let c = s.get_char(i);
        if !(c >= '0' && c <= '9') {
            return false;
        }
        i += 1;
    }
    true
}

/// The output file name for a stem and a timestamp:
/// `<stem>_<timestamp>.json`.
pub fn output_file_name(stem: &str, timestamp: &str) -> (r: String)
    ensures
        r@ == spec_output_name(stem@, timestamp@),
{
    let mut s = stem.to_owned();
    s.append("_");
    s.append(timestamp);
    s.append(".json");
    proof {
        assert(((stem@ + "_"@) + timestamp@) + ".json"@ =~= spec_output_name(stem@, timestamp@));
    }
    s
}

/// Relies on chrono's `Local::now` and `DateTime::format` with the layout
/// `%Y%m%d%H%M%S`: the current local wall-clock time rendered as a run of
/// digits. The result depends on the ambient clock, so nothing is promised
/// of it; callers validate its shape before building a name from it.
#[verifier::external_body]
fn local_timestamp() -> String {
    let now: chrono::DateTime<chrono::Local> = chrono::Local::now();
    format!("{}", now.format("%Y%m%d%H%M%S"))
}

/// The output file name for an input path, stamped with the current local
/// time: `<stem>_<YYYYMMDDHHmmss>.json`.
///
/// Fails with `NoStem` exactly when the path has no stem; fails with
/// `ClockFormat` only if the wall clock renders as anything but fourteen
/// digits (a clock far outside the representable era).
pub fn generate_output_file_name(input_file_path: &str) -> (r: Result<String, NameError>)
    ensures
        (spec_stem(input_file_path@) is None) == (r == Err::<String, NameError>(
            NameError::NoStem,
        )),
        r matches Ok(name) ==> (spec_stem(input_file_path@) matches Some(stem)
            && spec_matches_output_pattern(name@, stem)),
{
    let stem = match file_stem(input_file_path) {
        None => {
            return Err(NameError::NoStem);
        },
        Some(stem) => stem,
    };
    let ts = local_timestamp();
    if !is_timestamp(ts.as_str()) {
        return Err(NameError::ClockFormat);
    }
    let name = output_file_name(stem.as_str(), ts.as_str());
    proof {
        lemma_output_name_pattern(stem@, ts@);
    }
    Ok(name)
}

} // verus!

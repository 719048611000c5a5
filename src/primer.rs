use crate::model::{AmpliconError, PrimerPair};
use vstd::prelude::*;
use vstd::utf8::encode_utf8;

verus! {

/// The pieces of `s` between its tab characters, in order; a string with no
/// tab is one piece.
pub open spec fn tab_fields(s: Seq<char>) -> Seq<Seq<char>>
    decreases s.len(),
{
    if s.len() == 0 {
        seq![Seq::empty()]
    } else {
        let prev = tab_fields(s.drop_last());
        if s.last() == '\t' {
            prev.push(Seq::empty())
        } else {
            prev.update(prev.len() - 1, prev.last().push(s.last()))
        }
    }
}

/// A character of Unicode's `White_Space` property.
pub open spec fn is_white_space(c: char) -> bool {
    let u = c as u32;
    ||| 0x9 <= u <= 0xd
    ||| u == 0x20
    ||| u == 0x85
    ||| u == 0xa0
    ||| u == 0x1680
    ||| 0x2000 <= u <= 0x200a
    ||| u == 0x2028
    ||| u == 0x2029
    ||| u == 0x202f
    ||| u == 0x205f
    ||| u == 0x3000
}

/// `s` without its leading white space.
pub open spec fn trim_start(s: Seq<char>) -> Seq<char>
    decreases s.len(),
{
    if s.len() > 0 && is_white_space(s[0]) {
        trim_start(s.drop_first())
    } else {
        s
    }
}

/// `s` without its trailing white space.
pub open spec fn trim_end(s: Seq<char>) -> Seq<char>
    decreases s.len(),
{
    if s.len() > 0 && is_white_space(s.last()) {
        trim_end(s.drop_last())
    } else {
        s
    }
}

/// `s` without its leading and trailing white space.
pub open spec fn trimmed(s: Seq<char>) -> Seq<char> {
    trim_end(trim_start(s))
}

/// An ASCII decimal digit.
pub open spec fn is_digit(c: char) -> bool {
    '0' <= c && c <= '9'
}

/// The number that the decimal digits `d` write.
pub open spec fn digits_value(d: Seq<char>) -> nat
    decreases d.len(),
{
    if d.len() == 0 {
        0
    } else {
        digits_value(d.drop_last()) * 10 + ((d.last() as u32) - ('0' as u32)) as nat
    }
}

/// `s` without one leading `+`, if it has one.
pub open spec fn unsigned_digits(s: Seq<char>) -> Seq<char> {
    if s.len() > 0 && s[0] == '+' {
        s.drop_first()
    } else {
        s
    }
}

/// The `usize` that `s` writes in decimal (one or more digits, after an
/// optional `+`), or `None` where it writes none.
pub open spec fn parsed_usize(s: Seq<char>) -> Option<usize> {
    let d = unsigned_digits(s);
    if d.len() > 0 && (forall|i: int| 0 <= i < d.len() ==> is_digit(#[trigger] d[i]))
        && digits_value(d) <= usize::MAX {
        Some(digits_value(d) as usize)
    } else {
        None
    }
}

/// Relies on str::split with a char pattern: the pieces between the tabs.
#[verifier::external_body]
fn split_tabs(s: &str) -> (r: Vec<&str>)
    ensures
        r@.len() == tab_fields(s@).len(),
        forall|i: int| 0 <= i < r@.len() ==> (#[trigger] r@[i])@ == tab_fields(s@)[i],
{
    s.split('\t').collect()
}

/// Relies on str::trim: leading and trailing `White_Space` characters removed.
#[verifier::external_body]
fn trim_field(s: &str) -> (r: &str)
    ensures
        r@ == trimmed(s@),
{
    s.trim()
}

/// Relies on usize's `FromStr`: an optional `+` and decimal digits whose
/// value fits.
#[verifier::external_body]
fn parse_len(s: &str) -> (r: Option<usize>)
    ensures
        r == parsed_usize(s@),
{
    s.parse::<usize>().ok()
}

/// The trimmed tab-separated fields of a primer line.
pub open spec fn primer_fields(line: Seq<char>) -> Seq<Seq<char>> {
    tab_fields(line).map_values(|f: Seq<char>| trimmed(f))
}

/// The line has five fields and its two length fields are numbers.
pub open spec fn is_primer_line(line: Seq<char>) -> bool {
    let f = primer_fields(line);
    f.len() == 5 && parsed_usize(f[3]) is Some && parsed_usize(f[4]) is Some
}

/// `p` is the primer pair that the valid primer line `line` describes.
pub open spec fn pair_from_line(line: Seq<char>, p: PrimerPair) -> bool {
    let f = primer_fields(line);
    &&& p.primer_name@ == f[0]
    &&& p.forward_primer@ == encode_utf8(f[1])
    &&& p.reverse_primer@ == encode_utf8(f[2])
    &&& Some(p.min_len) == parsed_usize(f[3])
    &&& Some(p.max_len) == parsed_usize(f[4])
}

/// `e` is the error for the invalid primer line `line`: a wrong number of
/// fields, else the first length field that is not a number.
pub open spec fn error_from_line(line: Seq<char>, e: AmpliconError) -> bool {
    let f = primer_fields(line);
    if f.len() != 5 {
        e is PrimerLineFormatError
    } else if parsed_usize(f[3]) is None {
        e is PrimerLenParsingError && e->value@ == f[3]
    } else {
        e is PrimerLenParsingError && e->value@ == f[4]
    }
}

/// What reading one primer line gives.
pub open spec fn primer_line_outcome(line: Seq<char>, r: Result<PrimerPair, AmpliconError>) -> bool {
    if is_primer_line(line) {
        r is Ok && pair_from_line(line, r->Ok_0)
    } else {
        r is Err && error_from_line(line, r->Err_0)
    }
}

/// Reads one line of the primer table: name, forward primer, reverse primer,
/// minimum and maximum insert length, separated by tabs, each trimmed.
pub fn extract_primer_info(primer_line: &String) -> (r: Result<PrimerPair, AmpliconError>)
    ensures
        primer_line_outcome(primer_line@, r),
{
    let fields = split_tabs(primer_line.as_str());
    if fields.len() != 5 {
        return Err(AmpliconError::PrimerLineFormatError);
    }
    let name = trim_field(fields[0]);
    let forward = trim_field(fields[1]);
    let reverse = trim_field(fields[2]);
    let min_field = trim_field(fields[3]);
    let max_field = trim_field(fields[4]);
    let min_len: usize = match parse_len(min_field) {
        Some(n) => n,
        None => {
            return Err(AmpliconError::PrimerLenParsingError { value: min_field.to_owned() });
        },
    };
    let max_len: usize = match parse_len(max_field) {
        Some(n) => n,
        None => {
            return Err(AmpliconError::PrimerLenParsingError { value: max_field.to_owned() });
        },
    };
    Ok(
        PrimerPair {
            primer_name: name.to_owned(),
            forward_primer: vstd::slice::slice_to_vec(forward.as_bytes()),
            reverse_primer: vstd::slice::slice_to_vec(reverse.as_bytes()),
            min_len: min_len,
            max_len: max_len,
        },
    )
}

/// The indices below `n` of the lines that are valid primer lines (where
/// `valid`) or that are not (where `!valid`), ascending.
pub open spec fn line_indices(lines: Seq<String>, n: int, valid: bool) -> Seq<int>
    decreases n,
{
    if n <= 0 {
        seq![]
    } else if is_primer_line(lines[n - 1]@) == valid {
        line_indices(lines, n - 1, valid).push(n - 1)
    } else {
        line_indices(lines, n - 1, valid)
    }
}

/// `pairs` are the pairs of the valid lines among the first `n`, and
/// `skipped` the index and error of each other line, both in line order.
pub open spec fn table_so_far(
    lines: Seq<String>,
    n: int,
    pairs: Seq<PrimerPair>,
    skipped: Seq<(usize, AmpliconError)>,
) -> bool {
    let ok = line_indices(lines, n, true);
    let bad = line_indices(lines, n, false);
    &&& pairs.len() == ok.len()
    &&& forall|k: int| 0 <= k < pairs.len() ==> pair_from_line(lines[ok[k]]@, #[trigger] pairs[k])
    &&& skipped.len() == bad.len()
    &&& forall|k: int|
        0 <= k < skipped.len() ==> (#[trigger] skipped[k]).0 == bad[k] && error_from_line(
            lines[bad[k]]@,
            skipped[k].1,
        )
}

/// Reads a primer table, one line per entry. Returns the primer pairs of the
/// valid lines in order, or `NoPrimersFoundError` where no line is valid;
/// beside it, the index and error of each line that was skipped.
pub fn parse_primer_lines(lines: &Vec<String>) -> (r: (
    Result<Vec<PrimerPair>, AmpliconError>,
    Vec<(usize, AmpliconError)>,
))
    ensures
        line_indices(lines@, lines@.len() as int, true).len() == 0 <==> r.0 is Err,
        r.0 is Err ==> r.0->Err_0 is NoPrimersFoundError,
        r.0 is Ok ==> table_so_far(lines@, lines@.len() as int, r.0->Ok_0@, r.1@),
        r.0 is Err ==> table_so_far(lines@, lines@.len() as int, Seq::empty(), r.1@),
{
    let mut primer_pairs: Vec<PrimerPair> = Vec::new();
    let mut skipped: Vec<(usize, AmpliconError)> = Vec::new();
    let mut i: usize = 0;
    while i < lines.len()
        invariant
            i <= lines@.len(),
            table_so_far(lines@, i as int, primer_pairs@, skipped@),
        decreases lines@.len() - i,
    {
        let ghost ok = line_indices(lines@, i as int, true);
        let ghost bad = line_indices(lines@, i as int, false);
        match extract_primer_info(&lines[i]) {
            Ok(primer_pair) => {
                primer_pairs.push(primer_pair);
                assert(line_indices(lines@, i + 1, true) == ok.push(i as int));
                assert(line_indices(lines@, i + 1, false) == bad);
            },
            Err(e) => {
                skipped.push((i, e));
                assert(line_indices(lines@, i + 1, true) == ok);
                assert(line_indices(lines@, i + 1, false) == bad.push(i as int));
            },
        }
        i = i + 1;
    }
    if primer_pairs.len() == 0 {
        (Err(AmpliconError::NoPrimersFoundError), skipped)
    } else {
        (Ok(primer_pairs), skipped)
    }
}

} // verus!

//! Format detection and parsing of input documents: arrays of objects,
//! comma-separated tables with a header row, and sectioned key-value
//! configuration files.

use vstd::prelude::*;
use crate::text::{
    chars_of, content_line_ranges, content_lines, fields, holds, same_chars, split, split_ranges,
    string_of_range, trim, trim_range,
};

verus! {

/// Supported input formats.
#[derive(Debug, Clone, Copy, PartialEq, Eq, Structural)]
pub enum Format {
    Json,
    Csv,
    KeyValueConfig,
}

/// The result of parsing a document.
#[derive(Debug, Clone)]
pub enum ParsedData {
    /// An array of objects, kept as its trimmed text.
    Json { text: String },
    /// A table: the header's field names and the data rows' fields.
    CsvTable { headers: Vec<String>, rows: Vec<Vec<String>> },
    /// Configuration entries as `(key, value)`, each key once. Keys inside a
    /// section read `section.key`.
    Config(Vec<(String, String)>),
}

pub open spec fn strs(v: Seq<String>) -> Seq<Seq<char>> {
    v.map_values(|s: String| s@)
}

/// The first trimmed, non-blank line of a document, or nothing.
pub open spec fn first_line(s: Seq<char>) -> Seq<char> {
    if content_lines(s).len() > 0 {
        content_lines(s)[0]
    } else {
        Seq::empty()
    }
}

/// A `[name]` line whose inside holds no `{`, `"` or `,`: a section header
/// rather than the start of an array.
pub open spec fn is_section_line(l: Seq<char>) -> bool {
    &&& l.len() >= 2 && l[0] == '[' && l.last() == ']'
    &&& !l.contains('{') && !l.contains('"') && !l.contains(',')
}

pub open spec fn format_of(s: Seq<char>) -> Format {
    let l = first_line(s);
    if is_section_line(l) {
        Format::KeyValueConfig
    } else if l.len() > 0 && l[0] == '[' {
        Format::Json
    } else if l.contains(',') {
        Format::Csv
    } else {
        Format::KeyValueConfig
    }
}

/// Whether `cs[lo..hi]` holds `c`.
fn range_contains(cs: &Vec<char>, lo: usize, hi: usize, c: char) -> (r: bool)
    requires
        lo <= hi <= cs@.len(),
    ensures
        r == cs@.subrange(lo as int, hi as int).contains(c),
{
    let mut i = lo;
    while i < hi
        invariant
            lo <= i <= hi <= cs@.len(),
            forall|j: int| lo <= j < i ==> cs@[j] != c,
        decreases hi - i,
    {
        if cs[i] == c {
            assert(cs@.subrange(lo as int, hi as int)[i - lo] == c);
            return true;
        }
        i = i + 1;
    }
    assert forall|j: int| 0 <= j < hi - lo implies cs@.subrange(lo as int, hi as int)[j] != c by {
        assert(cs@.subrange(lo as int, hi as int)[j] == cs@[lo + j]);
    }
    false
}

/// Detect the format of `content` from its first non-blank line: a section
/// header `[name]` starts a key-value configuration; any other line that
/// starts with `[` starts an array of objects; one with a comma is a table;
/// and anything else is a key-value configuration.
pub fn detect_format(content: &str) -> (r: Format)
    ensures
        r == format_of(content@),
{
    let cs = chars_of(content);
    let ls = content_line_ranges(&cs);
    if ls.len() == 0 {
        return Format::KeyValueConfig;
    }
    assert(holds(cs@, ls@[0], content_lines(cs@)[0]));
    let (lo, hi) = ls[0];
    if hi - lo >= 2 && cs[lo] == '[' && cs[hi - 1] == ']' && !range_contains(&cs, lo, hi, '{')
        && !range_contains(&cs, lo, hi, '"') && !range_contains(&cs, lo, hi, ',') {
        return Format::KeyValueConfig;
    }
    if lo < hi && cs[lo] == '[' {
        return Format::Json;
    }
    if range_contains(&cs, lo, hi, ',') {
        return Format::Csv;
    }
    Format::KeyValueConfig
}

/// Every data row of a table has as many fields as its header.
pub open spec fn rows_match(ls: Seq<Seq<char>>) -> bool {
    forall|k: int| 1 <= k < ls.len() ==> #[trigger] fields(ls[k]).len() == fields(ls[0]).len()
}

/// A table can be read from `s`: it has a header line and its rows match it.
pub open spec fn csv_ok(s: Seq<char>) -> bool {
    content_lines(s).len() > 0 && rows_match(content_lines(s))
}

/// `d` is the table that `s` holds.
pub open spec fn is_table_of(d: ParsedData, s: Seq<char>) -> bool {
    let ls = content_lines(s);
    match d {
        ParsedData::CsvTable { headers, rows } => {
            &&& strs(headers@) == fields(ls[0])
            &&& rows@.len() + 1 == ls.len()
            &&& forall|k: int| 0 <= k < rows@.len() ==> strs(#[trigger] rows@[k]@) == fields(ls[k + 1])
        },
        _ => false,
    }
}

/// The trimmed comma-separated fields of `cs[lo..hi]`.
fn line_fields(cs: &Vec<char>, lo: usize, hi: usize) -> (r: Vec<String>)
    requires
        lo <= hi <= cs@.len(),
    ensures
        strs(r@) == fields(cs@.subrange(lo as int, hi as int)),
{
    let ghost ps = split(cs@.subrange(lo as int, hi as int), ',');
    let pieces = split_ranges(cs, lo, hi, ',');
    let mut out: Vec<String> = Vec::new();
    let mut k: usize = 0;
    while k < pieces.len()
        invariant
            k <= pieces@.len() == ps.len(),
            forall|j: int| 0 <= j < pieces@.len() ==> #[trigger] holds(cs@, pieces@[j], ps[j]),
            out@.len() == k,
            forall|j: int| 0 <= j < k ==> (#[trigger] out@[j])@ == trim(ps[j]),
        decreases pieces@.len() - k,
    {
        assert(holds(cs@, pieces@[k as int], ps[k as int]));
        let (a, b) = pieces[k];
        let (ta, tb) = trim_range(cs, a, b);
        out.push(string_of_range(cs, ta, tb));
        k = k + 1;
    }
    assert(strs(out@) =~= fields(cs@.subrange(lo as int, hi as int)));
    out
}

/// The message `format!` renders for row `row` of a table, which has `found`
/// fields where the header has `expected`; `line` is the row's text.
pub uninterp spec fn mismatch_text(row: usize, found: usize, expected: usize, line: Seq<char>) -> Seq<char>;

/// Row `k` is the first data row whose field count differs from the header's.
pub open spec fn first_bad_row(ls: Seq<Seq<char>>, k: int) -> bool {
    &&& 1 <= k < ls.len()
    &&& fields(ls[k]).len() != fields(ls[0]).len()
    &&& forall|j: int| 1 <= j < k ==> #[trigger] fields(ls[j]).len() == fields(ls[0]).len()
}

/// `e` is the message with which a table reading of `s` is refused.
pub open spec fn csv_error(e: Seq<char>, s: Seq<char>) -> bool {
    let ls = content_lines(s);
    if ls.len() == 0 {
        e == "Empty CSV content"@
    } else {
        exists|k: int|
            #[trigger] first_bad_row(ls, k) && e == mismatch_text(
                (k + 1) as usize,
                fields(ls[k]).len() as usize,
                fields(ls[0]).len() as usize,
                ls[k],
            )
    }
}

/// Relies on `format!`: the message for a row whose field count differs from
/// the header's, `Row {row} has {found} fields, expected {expected} (line: {line:?})`.
#[verifier::external_body]
fn mismatch_message(row: usize, found: usize, expected: usize, line: &String) -> (r: String)
    ensures
        r@ == mismatch_text(row, found, expected, line@),
{
    format!("Row {} has {} fields, expected {} (line: {:?})", row, found, expected, line)
}

/// Parse a comma-separated table. The first non-blank line is the header;
/// every later non-blank line is a row, whose fields are split on commas and
/// trimmed. A document with no lines, or with a row whose field count differs
/// from the header's, is refused.
pub fn parse_csv(content: &str) -> (r: Result<ParsedData, String>)
    ensures
        r is Ok <==> csv_ok(content@),
        r matches Ok(d) ==> is_table_of(d, content@),
        r matches Err(e) ==> csv_error(e@, content@),
        content_lines(content@).len() == 0 ==> (r matches Err(e) && e@ == "Empty CSV content"@),
{
    let cs = chars_of(content);
    let ls = content_line_ranges(&cs);
    let ghost lines = content_lines(content@);
    if ls.len() == 0 {
        let e = String::from_str("Empty CSV content");
        proof {
            reveal_strlit("Empty CSV content");
        }
        return Err(e);
    }
    assert(holds(cs@, ls@[0], lines[0]));
    let headers = line_fields(&cs, ls[0].0, ls[0].1);
    let num_cols = headers.len();
    let mut rows: Vec<Vec<String>> = Vec::new();
    let mut k: usize = 1;
    while k < ls.len()
        invariant
            1 <= k <= ls@.len() == lines.len(),
            cs@ == content@,
            lines == content_lines(cs@),
            forall|j: int| 0 <= j < ls@.len() ==> #[trigger] holds(cs@, ls@[j], lines[j]),
            strs(headers@) == fields(lines[0]),
            num_cols == headers@.len(),
            rows@.len() + 1 == k,
            forall|j: int| 0 <= j < rows@.len() ==> strs(#[trigger] rows@[j]@) == fields(lines[j + 1]),
            forall|j: int| 1 <= j < k ==> #[trigger] fields(lines[j]).len() == fields(lines[0]).len(),
        decreases ls@.len() - k,
    {
        assert(holds(cs@, ls@[k as int], lines[k as int]));
        let (lo, hi) = ls[k];
        let row = line_fields(&cs, lo, hi);
        assert(strs(row@).len() == row@.len());
        if row.len() != num_cols {
            let line = string_of_range(&cs, lo, hi);
            assert(first_bad_row(lines, k as int));
            let e = mismatch_message(k + 1, row.len(), num_cols, &line);
            assert(csv_error(e@, content@));
            return Err(e);
        }
        rows.push(row);
        k = k + 1;
    }
    Ok(ParsedData::CsvTable { headers, rows })
}

/// The position of the first `=` in `s`, or its length where it has none.
pub open spec fn first_eq(s: Seq<char>) -> int
    decreases s.len(),
{
    if s.len() == 0 || s[0] == '=' {
        0
    } else {
        1 + first_eq(s.subrange(1, s.len() as int))
    }
}

pub open spec fn is_comment(l: Seq<char>) -> bool {
    l.len() > 0 && (l[0] == '#' || l[0] == ';')
}

pub open spec fn is_header(l: Seq<char>) -> bool {
    l.len() >= 2 && l[0] == '[' && l.last() == ']'
}

pub open spec fn full_key(section: Seq<char>, key: Seq<char>) -> Seq<char> {
    if section.len() == 0 {
        key
    } else {
        section + seq!['.'] + key
    }
}

/// The entries read from lines `ls`, and the section in force after them.
pub open spec fn config_state(ls: Seq<Seq<char>>) -> (Map<Seq<char>, Seq<char>>, Seq<char>)
    decreases ls.len(),
{
    if ls.len() == 0 {
        (Map::empty(), Seq::empty())
    } else {
        let (m, sec) = config_state(ls.drop_last());
        let l = ls.last();
        let p = first_eq(l);
        if is_comment(l) {
            (m, sec)
        } else if is_header(l) {
            (m, trim(l.subrange(1, l.len() - 1)))
        } else if p < l.len() {
            (
                m.insert(
                    full_key(sec, trim(l.subrange(0, p))),
                    trim(l.subrange(p + 1, l.len() as int)),
                ),
                sec,
            )
        } else {
            (m, sec)
        }
    }
}

/// The entries of a configuration document.
pub open spec fn config_of(s: Seq<char>) -> Map<Seq<char>, Seq<char>> {
    config_state(content_lines(s)).0
}

/// `v` lists the entries of `m`, each key once.
pub open spec fn lists_entries(v: Seq<(String, String)>, m: Map<Seq<char>, Seq<char>>) -> bool {
    &&& forall|i: int, j: int| 0 <= i < j < v.len() ==> v[i].0@ != v[j].0@
    &&& forall|i: int| 0 <= i < v.len() ==> m.contains_key(#[trigger] v[i].0@) && m[v[i].0@] == v[i].1@
    &&& forall|k: Seq<char>| #[trigger] m.contains_key(k) ==> exists|i: int| 0 <= i < v.len() && v[i].0@ == k
}

/// The position of the first `=` in `cs[lo..hi]`, relative to `lo`.
fn find_eq(cs: &Vec<char>, lo: usize, hi: usize) -> (r: usize)
    requires
        lo <= hi <= cs@.len(),
    ensures
        r == first_eq(cs@.subrange(lo as int, hi as int)),
        r <= hi - lo,
{
    let mut i = lo;
    while i < hi && cs[i] != '='
        invariant
            lo <= i <= hi <= cs@.len(),
            first_eq(cs@.subrange(lo as int, hi as int)) == (i - lo) + first_eq(
                cs@.subrange(i as int, hi as int),
            ),
        decreases hi - i,
    {
        assert(cs@.subrange(i as int, hi as int).subrange(1, (hi - i) as int) =~= cs@.subrange(
            i + 1,
            hi as int,
        ));
        i = i + 1;
    }
    i - lo
}

/// Append `cs[lo..hi]` to `out`.
fn push_range(out: &mut Vec<char>, cs: &Vec<char>, lo: usize, hi: usize)
    requires
        lo <= hi <= cs@.len(),
    ensures
        final(out)@ == old(out)@ + cs@.subrange(lo as int, hi as int),
{
    let mut i = lo;
    while i < hi
        invariant
            lo <= i <= hi <= cs@.len(),
            out@ == old(out)@ + cs@.subrange(lo as int, i as int),
        decreases hi - i,
    {
        out.push(cs[i]);
        i = i + 1;
        assert(out@ =~= old(out)@ + cs@.subrange(lo as int, i as int));
    }
}

/// Parse a configuration document of `[section]` headers and `key = value`
/// lines. Blank lines and lines that start with `#` or `;` are skipped, and
/// so is a line that is neither a header nor holds `=`. A key inside a
/// section is stored as `section.key`; a later value for a key replaces the
/// earlier one.
pub fn parse_key_value_config(content: &str) -> (r: ParsedData)
    ensures
        r matches ParsedData::Config(v) && lists_entries(v@, config_of(content@)),
{
    let cs = chars_of(content);
    let ls = content_line_ranges(&cs);
    let ghost lines = content_lines(content@);
    let mut entries: Vec<(String, String)> = Vec::new();
    let mut keys: Vec<Vec<char>> = Vec::new();
    let mut section: Vec<char> = Vec::new();
    let mut k: usize = 0;
    assert(lines.subrange(0, 0) =~= Seq::<Seq<char>>::empty());
    while k < ls.len()
        invariant
            k <= ls@.len() == lines.len(),
            cs@ == content@,
            lines == content_lines(cs@),
            forall|j: int| 0 <= j < ls@.len() ==> #[trigger] holds(cs@, ls@[j], lines[j]),
            keys@.len() == entries@.len(),
            forall|i: int| 0 <= i < keys@.len() ==> (#[trigger] keys@[i])@ == entries@[i].0@,
            section@ == config_state(lines.subrange(0, k as int)).1,
            lists_entries(entries@, config_state(lines.subrange(0, k as int)).0),
        decreases ls@.len() - k,
    {
        assert(holds(cs@, ls@[k as int], lines[k as int]));
        assert(lines.subrange(0, k + 1).drop_last() =~= lines.subrange(0, k as int));
        let ghost l = lines[k as int];
        let ghost m0 = config_state(lines.subrange(0, k as int)).0;
        let (lo, hi) = ls[k];
        let p = find_eq(&cs, lo, hi);
        assert(l == cs@.subrange(lo as int, hi as int));
        assert(lo < hi ==> l[0] == cs@[lo as int]);
        assert(hi - lo >= 2 ==> l.last() == cs@[hi - 1]);
        assert(lines.subrange(0, k + 1).last() == l);
        k = k + 1;
        if lo < hi && (cs[lo] == '#' || cs[lo] == ';') {
        } else if hi - lo >= 2 && cs[lo] == '[' && cs[hi - 1] == ']' {
            let (a, b) = trim_range(&cs, lo + 1, hi - 1);
            assert(l.subrange(1, l.len() - 1) =~= cs@.subrange(lo + 1, hi - 1));
            let mut name: Vec<char> = Vec::new();
            push_range(&mut name, &cs, a, b);
            assert(name@ =~= cs@.subrange(a as int, b as int));
            section = name;
        } else if p < hi - lo {
            let (ka, kb) = trim_range(&cs, lo, lo + p);
            let (va, vb) = trim_range(&cs, lo + p + 1, hi);
            assert(l.subrange(0, p as int) =~= cs@.subrange(lo as int, lo + p));
            assert(l.subrange(p + 1, l.len() as int) =~= cs@.subrange(lo + p + 1, hi as int));
            let mut fk: Vec<char> = Vec::new();
            if section.len() > 0 {
                push_range(&mut fk, &section, 0, section.len());
                fk.push('.');
            }
            push_range(&mut fk, &cs, ka, kb);
            assert(section@.subrange(0, section@.len() as int) =~= section@);
            let ghost key = full_key(section@, cs@.subrange(ka as int, kb as int));
            assert(fk@ =~= key);
            let key_str = string_of_range(&fk, 0, fk.len());
            let value_str = string_of_range(&cs, va, vb);
            assert(fk@.subrange(0, fk@.len() as int) =~= fk@);
            let ghost m1 = m0.insert(key, cs@.subrange(va as int, vb as int));
            let mut i: usize = 0;
            while i < keys.len() && !same_chars(&fk, 0, fk.len(), &keys[i])
                invariant
                    i <= keys@.len() == entries@.len(),
                    fk@.subrange(0, fk@.len() as int) == key,
                    forall|j: int| 0 <= j < i ==> entries@[j].0@ != key,
                    forall|j: int| 0 <= j < keys@.len() ==> (#[trigger] keys@[j])@ == entries@[j].0@,
                decreases keys@.len() - i,
            {
                i = i + 1;
            }
            let ghost old_entries = entries@;
            assert(lists_entries(old_entries, m0));
            if i < keys.len() {
                assert(entries@[i as int].0@ == key);
                entries.set(i, (key_str, value_str));
                assert forall|j: int| 0 <= j < entries@.len() implies m1.contains_key(
                    #[trigger] entries@[j].0@,
                ) && m1[entries@[j].0@] == entries@[j].1@ by {
                    if j != i {
                        assert(old_entries[j].0@ != old_entries[i as int].0@);
                    }
                }
                assert forall|k2: Seq<char>| #[trigger] m1.contains_key(k2) implies exists|j: int|
                    0 <= j < entries@.len() && entries@[j].0@ == k2 by {
                    if k2 != key {
                        let j = choose|j: int| 0 <= j < old_entries.len() && old_entries[j].0@ == k2;
                        assert(entries@[j].0@ == k2);
                    } else {
                        assert(entries@[i as int].0@ == k2);
                    }
                }
            } else {
                entries.push((key_str, value_str));
                keys.push(fk);
                assert forall|k2: Seq<char>| #[trigger] m1.contains_key(k2) implies exists|j: int|
                    0 <= j < entries@.len() && entries@[j].0@ == k2 by {
                    if k2 != key {
                        let j = choose|j: int| 0 <= j < old_entries.len() && old_entries[j].0@ == k2;
                        assert(entries@[j].0@ == k2);
                    } else {
                        assert(entries@[entries@.len() - 1].0@ == k2);
                    }
                }
            }
        }
    }
    assert(lines.subrange(0, k as int) =~= lines);
    ParsedData::Config(entries)
}

/// The document, trimmed, is enclosed in `[` and `]`.
pub open spec fn json_ok(s: Seq<char>) -> bool {
    let t = trim(s);
    t.len() >= 2 && t[0] == '[' && t.last() == ']'
}

/// Take an array of objects: the trimmed document must be enclosed in
/// brackets. Its elements are left to the consumer.
pub fn parse_json(content: &str) -> (r: Result<ParsedData, ()>)
    ensures
        r is Ok <==> json_ok(content@),
        r matches Ok(d) ==> (d matches ParsedData::Json { text } && text@ == trim(content@)),
{
    let cs = chars_of(content);
    let (lo, hi) = trim_range(&cs, 0, cs.len());
    assert(cs@.subrange(0, cs@.len() as int) =~= cs@);
    if hi - lo >= 2 && cs[lo] == '[' && cs[hi - 1] == ']' {
        Ok(ParsedData::Json { text: string_of_range(&cs, lo, hi) })
    } else {
        Err(())
    }
}

/// Detect the format of `content` and parse it. An array that cannot be
/// taken as such is read as a table instead; a table whose rows do not match
/// its header is refused with a message.
pub fn parse(content: &str) -> (r: Result<ParsedData, String>)
    ensures
        format_of(content@) == Format::KeyValueConfig ==> (r matches Ok(ParsedData::Config(v))
            && lists_entries(v@, config_of(content@))),
        format_of(content@) == Format::Json && json_ok(content@) ==> (r matches Ok(
            ParsedData::Json { text },
        ) && text@ == trim(content@)),
        format_of(content@) == Format::Csv || (format_of(content@) == Format::Json && !json_ok(
            content@,
        )) ==> (r is Ok <==> csv_ok(content@)) && (r matches Ok(d) ==> is_table_of(d, content@)),
        r matches Err(e) ==> csv_error(e@, content@),
{
    match detect_format(content) {
        Format::Json => match parse_json(content) {
            Ok(data) => Ok(data),
            Err(_) => parse_csv(content),
        },
        Format::Csv => parse_csv(content),
        Format::KeyValueConfig => Ok(parse_key_value_config(content)),
    }
}

} // verus!

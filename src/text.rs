//! Character-level helpers shared by the document parsers: splitting on a
//! separator, trimming whitespace, and the non-blank lines of a document.

use vstd::prelude::*;
use vstd::std_specs::iter::IteratorSpec;

verus! {

/// The whitespace that `trim` removes: the Unicode `White_Space` set.
pub open spec fn is_space(c: char) -> bool {
    ('\u{09}' <= c && c <= '\u{0D}') || c == ' ' || c == '\u{85}' || c == '\u{A0}' || c
        == '\u{1680}' || ('\u{2000}' <= c && c <= '\u{200A}') || c == '\u{2028}' || c
        == '\u{2029}' || c == '\u{202F}' || c == '\u{205F}' || c == '\u{3000}'
}

/// The pieces of `s` between occurrences of `sep`; always at least one piece.
pub open spec fn split(s: Seq<char>, sep: char) -> Seq<Seq<char>>
    decreases s.len(),
{
    if s.len() == 0 {
        seq![Seq::empty()]
    } else {
        let p = split(s.drop_last(), sep);
        if s.last() == sep {
            p.push(Seq::empty())
        } else {
            p.update(p.len() - 1, p.last().push(s.last()))
        }
    }
}

pub open spec fn trim_start(s: Seq<char>) -> Seq<char>
    decreases s.len(),
{
    if s.len() > 0 && is_space(s[0]) {
        trim_start(s.subrange(1, s.len() as int))
    } else {
        s
    }
}

pub open spec fn trim_end(s: Seq<char>) -> Seq<char>
    decreases s.len(),
{
    if s.len() > 0 && is_space(s.last()) {
        trim_end(s.drop_last())
    } else {
        s
    }
}

/// `s` without leading and trailing whitespace.
pub open spec fn trim(s: Seq<char>) -> Seq<char> {
    trim_end(trim_start(s))
}

/// The trimmed pieces of `ls` that are not empty, in order.
pub open spec fn nonblank(ls: Seq<Seq<char>>) -> Seq<Seq<char>>
    decreases ls.len(),
{
    if ls.len() == 0 {
        Seq::empty()
    } else {
        let r = nonblank(ls.drop_last());
        let t = trim(ls.last());
        if t.len() == 0 {
            r
        } else {
            r.push(t)
        }
    }
}

/// The trimmed, non-blank lines of a document.
pub open spec fn content_lines(s: Seq<char>) -> Seq<Seq<char>> {
    nonblank(split(s, '\n'))
}

/// The trimmed comma-separated fields of one line.
pub open spec fn fields(line: Seq<char>) -> Seq<Seq<char>> {
    split(line, ',').map_values(|p: Seq<char>| trim(p))
}

/// A range `[lo, hi)` of `cs` lies within it and holds `piece`.
pub open spec fn holds(cs: Seq<char>, r: (usize, usize), piece: Seq<char>) -> bool {
    r.0 <= r.1 <= cs.len() && cs.subrange(r.0 as int, r.1 as int) == piece
}

/// The characters of `s`, in order.
pub fn chars_of(s: &str) -> (r: Vec<char>)
    ensures
        r@ == s@,
{
    broadcast use vstd::string::axiom_spec_iter, vstd::string::next_postcondition;

    let mut it = s.chars();
    let mut out: Vec<char> = Vec::new();
    loop
        invariant
            out@ + it.remaining() == s@,
            it.decrease() is Some,
        ensures
            out@ == s@,
        decreases it.decrease()->0,
    {
        match it.next() {
            Some(c) => {
                out.push(c);
            },
            None => {
                assert(out@ =~= out@ + it.remaining());
                break;
            },
        }
    }
    out
}

/// Relies on collecting `char`s into a `String`: the string of the characters
/// `cs[lo..hi]`, in order.
#[verifier::external_body]
pub(crate) fn string_of_range(cs: &Vec<char>, lo: usize, hi: usize) -> (r: String)
    requires
        lo <= hi <= cs@.len(),
    ensures
        r@ == cs@.subrange(lo as int, hi as int),
{
    cs[lo..hi].iter().collect()
}

pub fn is_space_char(c: char) -> (r: bool)
    ensures
        r == is_space(c),
{
    ('\u{09}' <= c && c <= '\u{0D}') || c == ' ' || c == '\u{85}' || c == '\u{A0}' || c
        == '\u{1680}' || ('\u{2000}' <= c && c <= '\u{200A}') || c == '\u{2028}' || c
        == '\u{2029}' || c == '\u{202F}' || c == '\u{205F}' || c == '\u{3000}'
}

/// The range of `cs[lo..hi]` that remains after trimming.
pub fn trim_range(cs: &Vec<char>, lo: usize, hi: usize) -> (r: (usize, usize))
    requires
        lo <= hi <= cs@.len(),
    ensures
        lo <= r.0 <= r.1 <= hi,
        cs@.subrange(r.0 as int, r.1 as int) == trim(cs@.subrange(lo as int, hi as int)),
{
    let mut a = lo;
    while a < hi && is_space_char(cs[a])
        invariant
            lo <= a <= hi <= cs@.len(),
            trim_start(cs@.subrange(a as int, hi as int)) == trim_start(
                cs@.subrange(lo as int, hi as int),
            ),
        decreases hi - a,
    {
        assert(cs@.subrange(a as int, hi as int).subrange(1, (hi - a) as int) =~= cs@.subrange(
            a + 1,
            hi as int,
        ));
        a = a + 1;
    }
    let mut b = hi;
    while b > a && is_space_char(cs[b - 1])
        invariant
            lo <= a <= b <= hi <= cs@.len(),
            trim_start(cs@.subrange(lo as int, hi as int)) == cs@.subrange(a as int, hi as int),
            trim_end(cs@.subrange(a as int, b as int)) == trim_end(
                cs@.subrange(a as int, hi as int),
            ),
        decreases b - a,
    {
        assert(cs@.subrange(a as int, b as int).drop_last() =~= cs@.subrange(
            a as int,
            b - 1,
        ));
        b = b - 1;
    }
    (a, b)
}

/// The ranges of the pieces of `cs[lo..hi]` between occurrences of `sep`.
pub fn split_ranges(cs: &Vec<char>, lo: usize, hi: usize, sep: char) -> (r: Vec<(usize, usize)>)
    requires
        lo <= hi <= cs@.len(),
    ensures
        r@.len() == split(cs@.subrange(lo as int, hi as int), sep).len(),
        forall|k: int|
            0 <= k < r@.len() ==> #[trigger] holds(
                cs@,
                r@[k],
                split(cs@.subrange(lo as int, hi as int), sep)[k],
            ),
{
    let mut done: Vec<(usize, usize)> = Vec::new();
    let mut start = lo;
    let mut i = lo;
    assert(cs@.subrange(lo as int, lo as int) =~= Seq::<char>::empty());
    while i < hi
        invariant
            lo <= start <= i <= hi <= cs@.len(),
            split(cs@.subrange(lo as int, i as int), sep).len() == done@.len() + 1,
            split(cs@.subrange(lo as int, i as int), sep).last() == cs@.subrange(
                start as int,
                i as int,
            ),
            forall|k: int|
                0 <= k < done@.len() ==> #[trigger] holds(
                    cs@,
                    done@[k],
                    split(cs@.subrange(lo as int, i as int), sep)[k],
                ),
        decreases hi - i,
    {
        let ghost prev = split(cs@.subrange(lo as int, i as int), sep);
        assert(cs@.subrange(lo as int, i + 1).drop_last() =~= cs@.subrange(lo as int, i as int));
        if cs[i] == sep {
            done.push((start, i));
            start = i + 1;
            assert(cs@.subrange(start as int, i + 1) =~= Seq::<char>::empty());
        } else {
            assert(cs@.subrange(start as int, i + 1) =~= cs@.subrange(start as int, i as int).push(
                cs@[i as int],
            ));
        }
        i = i + 1;
        assert forall|k: int| 0 <= k < done@.len() implies #[trigger] holds(
            cs@,
            done@[k],
            split(cs@.subrange(lo as int, i as int), sep)[k],
        ) by {
            if k < prev.len() - 1 {
            }
        }
    }
    done.push((start, hi));
    done
}

/// The ranges of the trimmed, non-blank lines of `cs`.
pub fn content_line_ranges(cs: &Vec<char>) -> (r: Vec<(usize, usize)>)
    ensures
        r@.len() == content_lines(cs@).len(),
        forall|k: int| 0 <= k < r@.len() ==> #[trigger] holds(cs@, r@[k], content_lines(cs@)[k]),
{
    let pieces = split_ranges(cs, 0, cs.len(), '\n');
    let ghost ps = split(cs@.subrange(0, cs@.len() as int), '\n');
    assert(cs@.subrange(0, cs@.len() as int) =~= cs@);
    let mut out: Vec<(usize, usize)> = Vec::new();
    let mut k: usize = 0;
    assert(ps.subrange(0, 0) =~= Seq::<Seq<char>>::empty());
    while k < pieces.len()
        invariant
            k <= pieces@.len() == ps.len(),
            ps == split(cs@, '\n'),
            forall|j: int| 0 <= j < pieces@.len() ==> #[trigger] holds(cs@, pieces@[j], ps[j]),
            out@.len() == nonblank(ps.subrange(0, k as int)).len(),
            forall|j: int|
                0 <= j < out@.len() ==> #[trigger] holds(
                    cs@,
                    out@[j],
                    nonblank(ps.subrange(0, k as int))[j],
                ),
        decreases pieces@.len() - k,
    {
        assert(holds(cs@, pieces@[k as int], ps[k as int]));
        let (lo, hi) = pieces[k];
        let (a, b) = trim_range(cs, lo, hi);
        assert(ps.subrange(0, k + 1).drop_last() =~= ps.subrange(0, k as int));
        if a < b {
            out.push((a, b));
        }
        k = k + 1;
    }
    assert(ps.subrange(0, k as int) =~= ps);
    out
}

/// Whether `cs[lo..hi]` and `ds` hold the same characters.
pub fn same_chars(cs: &Vec<char>, lo: usize, hi: usize, ds: &Vec<char>) -> (r: bool)
    requires
        lo <= hi <= cs@.len(),
    ensures
        r == (cs@.subrange(lo as int, hi as int) == ds@),
{
    if hi - lo != ds.len() {
        return false;
    }
    let mut i: usize = 0;
    while i < ds.len()
        invariant
            hi - lo == ds@.len(),
            lo <= hi <= cs@.len(),
            i <= ds@.len(),
            forall|j: int| 0 <= j < i ==> cs@[lo + j] == ds@[j],
        decreases ds@.len() - i,
    {
        if cs[lo + i] != ds[i] {
            assert(cs@.subrange(lo as int, hi as int)[i as int] != ds@[i as int]);
            return false;
        }
        i = i + 1;
    }
    assert(cs@.subrange(lo as int, hi as int) =~= ds@);
    true
}

} // verus!

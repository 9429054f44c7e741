use crate::error::AdapterError;
use vstd::prelude::*;

verus! {

/// The parsed form of a goto text: a path, and optionally a line and a column.
#[derive(Debug)]
pub struct PathWithLineAndColumn {
    pub path: String,
    pub line: Option<usize>,
    pub column: Option<usize>,
}

impl View for PathWithLineAndColumn {
    type V = (Seq<char>, Option<usize>, Option<usize>);

    open spec fn view(&self) -> Self::V {
        (self.path@, self.line, self.column)
    }
}

pub open spec fn is_digit(c: char) -> bool {
    '0' <= c && c <= '9'
}

pub open spec fn digit_value(c: char) -> nat {
    (c as u32 - '0' as u32) as nat
}

pub open spec fn all_digits(s: Seq<char>) -> bool {
    forall|i: int| 0 <= i < s.len() ==> is_digit(#[trigger] s[i])
}

/// The value of a string of decimal digits, most significant first.
pub open spec fn digits_value(s: Seq<char>) -> nat
    decreases s.len(),
{
    if s.len() == 0 {
        0
    } else {
        digits_value(s.drop_last()) * 10 + digit_value(s.last())
    }
}

/// The digits of a numeric segment: an optional leading `+` is dropped.
pub open spec fn unsigned_digits(seg: Seq<char>) -> Seq<char> {
    if seg.len() > 0 && seg[0] == '+' {
        seg.drop_first()
    } else {
        seg
    }
}

/// The segment read as a `usize`: one or more decimal digits after an
/// optional `+`, of a value that fits.
pub open spec fn number_of(seg: Seq<char>) -> Option<usize> {
    let d = unsigned_digits(seg);
    if d.len() > 0 && all_digits(d) && digits_value(d) <= usize::MAX {
        Some(digits_value(d) as usize)
    } else {
        None
    }
}

/// The text split at every colon, empty segments kept.
pub open spec fn split_colons(s: Seq<char>) -> Seq<Seq<char>>
    decreases s.len(),
{
    if s.len() == 0 {
        seq![Seq::empty()]
    } else {
        let prev = split_colons(s.drop_last());
        if s.last() == ':' {
            prev.push(Seq::empty())
        } else {
            prev.update(prev.len() - 1, prev.last().push(s.last()))
        }
    }
}

/// What the parser has gathered so far: path, line, column.
pub type Gathered = (Seq<char>, Option<usize>, Option<usize>);

/// One segment taken in: a number fills the line, then the column, and is
/// then ignored; anything else extends the path, with the colon put back
/// unless the path is still empty.
pub open spec fn absorb(acc: Gathered, seg: Seq<char>) -> Gathered {
    match number_of(seg) {
        None => (
            if acc.0.len() == 0 { seg } else { acc.0 + seq![':'] + seg },
            acc.1,
            acc.2,
        ),
        Some(n) => if acc.1 is None {
            (acc.0, Some(n), acc.2)
        } else if acc.2 is None {
            (acc.0, acc.1, Some(n))
        } else {
            acc
        },
    }
}

/// The segments taken in from left to right.
pub open spec fn gather(segs: Seq<Seq<char>>) -> Gathered
    decreases segs.len(),
{
    if segs.len() == 0 {
        (Seq::empty(), None, None)
    } else {
        absorb(gather(segs.drop_last()), segs.last())
    }
}

/// The result of parsing a goto text: `None` where no path remains, else the
/// path with its line, and a column that defaults to 1 where a line is given.
pub open spec fn parse_goto(raw: Seq<char>) -> Option<Gathered> {
    let g = gather(split_colons(raw));
    if g.0.len() == 0 {
        None
    } else {
        Some(
            (
                g.0,
                g.1,
                if g.2 is Some {
                    g.2
                } else if g.1 is Some {
                    Some(1usize)
                } else {
                    None
                },
            ),
        )
    }
}

proof fn lemma_prefix_value_le(s: Seq<char>, k: int)
    requires
        0 <= k <= s.len(),
    ensures
        digits_value(s.subrange(0, k)) <= digits_value(s),
    decreases s.len(),
{
    if k < s.len() {
        assert(s.drop_last().subrange(0, k) =~= s.subrange(0, k));
        lemma_prefix_value_le(s.drop_last(), k);
    } else {
        assert(s.subrange(0, k) =~= s);
    }
}

/// Reads a segment as `usize` in the way `str::parse::<usize>` does.
pub fn parse_number(seg: &str) -> (r: Option<usize>)
    ensures
        r == number_of(seg@),
{
    let n = seg.unicode_len();
    let mut i: usize = 0;
    if n > 0 && seg.get_char(0) == '+' {
        i = 1;
    }
    let ghost d = unsigned_digits(seg@);
    proof {
        assert(d =~= seg@.subrange(i as int, n as int));
    }
    if i == n {
        return None;
    }
    let start = i;
    let mut value: usize = 0;
    while i < n
        invariant
            start <= i <= n,
            n == seg@.len(),
            d == seg@.subrange(start as int, n as int),
            d == unsigned_digits(seg@),
            d.len() > 0,
            all_digits(d.subrange(0, i - start)),
            value == digits_value(d.subrange(0, i - start)),
        decreases n - i,
    {
        let c = seg.get_char(i);
        let ghost k = i - start;
        proof {
            assert(d[k] == c);
            assert(d.subrange(0, k + 1).drop_last() =~= d.subrange(0, k));
        }
        if !('0' <= c && c <= '9') {
            proof {
                assert(!is_digit(d[k]));
                assert(!all_digits(d));
            }
            return None;
        }
        let digit = (c as u32 - '0' as u32) as usize;
        match value.checked_mul(10) {
            None => {
                proof {
                    assert(all_digits(d.subrange(0, k + 1)));
                    assert(digits_value(d.subrange(0, k + 1)) == value * 10 + digit_value(c));
                    if all_digits(d) {
                        lemma_prefix_value_le(d, k + 1);
                    }
                }
                return None;
            },
            Some(v) => match v.checked_add(digit) {
                None => {
                    proof {
                        assert(all_digits(d.subrange(0, k + 1)));
                        if all_digits(d) {
                            lemma_prefix_value_le(d, k + 1);
                        }
                    }
                    return None;
                },
                Some(w) => {
                    value = w;
                },
            },
        }
        i = i + 1;
        proof {
            assert(all_digits(d.subrange(0, i - start)));
        }
    }
    proof {
        assert(d.subrange(0, n - start) =~= d);
    }
    Some(value)
}

proof fn lemma_split_step(raw: Seq<char>, i: int)
    requires
        0 <= i < raw.len(),
    ensures
        ({
            let prev = split_colons(raw.subrange(0, i));
            split_colons(raw.subrange(0, i + 1)) == if raw[i] == ':' {
                prev.push(Seq::empty())
            } else {
                prev.update(prev.len() - 1, prev.last().push(raw[i]))
            }
        }),
{
    assert(raw.subrange(0, i + 1).drop_last() =~= raw.subrange(0, i));
}

proof fn lemma_split_nonempty(s: Seq<char>)
    ensures
        split_colons(s).len() >= 1,
    decreases s.len(),
{
    if s.len() > 0 {
        lemma_split_nonempty(s.drop_last());
    }
}

/// Takes one segment into the path, line and column gathered so far.
fn absorb_segment(
    path: &mut String,
    line: &mut Option<usize>,
    column: &mut Option<usize>,
    seg: &str,
)
    ensures
        (final(path)@, *final(line), *final(column)) == absorb(
            (old(path)@, *old(line), *old(column)),
            seg@,
        ),
{
    match parse_number(seg) {
        None => {
            if path.unicode_len() == 0 {
                *path = String::from_str(seg);
            } else {
                path.append(":");
                path.append(seg);
                proof {
                    reveal_strlit(":");
                }
            }
        },
        Some(n) => {
            if line.is_none() {
                *line = Some(n);
            } else if column.is_none() {
                *column = Some(n);
            }
        },
    }
}

/// Parses `PATH[:LINE[:COLUMN]]`, where the path may itself hold colons.
///
/// The text is split at every colon. Each segment that reads as a number
/// fills the line, then the column; further numbers are ignored. Every other
/// segment extends the path, with its colon put back. Where a line is given
/// and no column, the column is 1. A text that leaves the path empty is
/// refused.
pub fn parse_line_and_column_aware(raw_path: &str) -> (r: Result<
    PathWithLineAndColumn,
    AdapterError,
>)
    ensures
        r is Ok <==> parse_goto(raw_path@) is Some,
        r is Ok ==> parse_goto(raw_path@) == Some(r->Ok_0@),
        r is Err ==> r->Err_0 == AdapterError::MalformedSpec,
{
    let n = raw_path.unicode_len();
    let mut path = String::new();
    let mut line: Option<usize> = None;
    let mut column: Option<usize> = None;
    let mut start: usize = 0;
    let mut i: usize = 0;
    while i < n
        invariant
            n == raw_path@.len(),
            start <= i <= n,
            split_colons(raw_path@.subrange(0, i as int)).last() == raw_path@.subrange(
                start as int,
                i as int,
            ),
            (path@, line, column) == gather(split_colons(raw_path@.subrange(0, i as int)).drop_last()),
        decreases n - i,
    {
        let ghost prev = split_colons(raw_path@.subrange(0, i as int));
        proof {
            lemma_split_step(raw_path@, i as int);
            lemma_split_nonempty(raw_path@.subrange(0, i as int));
        }
        if raw_path.get_char(i) == ':' {
            let seg = raw_path.substring_char(start, i);
            absorb_segment(&mut path, &mut line, &mut column, seg);
            start = i + 1;
            proof {
                let next = prev.push(Seq::empty());
                assert(next.drop_last() =~= prev);
                assert(prev =~= prev.drop_last().push(prev.last()));
                assert(raw_path@.subrange(start as int, i + 1) =~= Seq::<char>::empty());
            }
        } else {
            proof {
                let next = prev.update(prev.len() - 1, prev.last().push(raw_path@[i as int]));
                assert(next.drop_last() =~= prev.drop_last());
                assert(raw_path@.subrange(start as int, i + 1) =~= raw_path@.subrange(
                    start as int,
                    i as int,
                ).push(raw_path@[i as int]));
            }
        }
        i = i + 1;
    }
    let seg = raw_path.substring_char(start, n);
    absorb_segment(&mut path, &mut line, &mut column, seg);
    proof {
        let segs = split_colons(raw_path@.subrange(0, n as int));
        lemma_split_nonempty(raw_path@.subrange(0, n as int));
        assert(raw_path@.subrange(0, n as int) =~= raw_path@);
        assert(segs =~= segs.drop_last().push(segs.last()));
    }
    if path.unicode_len() == 0 {
        return Err(AdapterError::MalformedSpec);
    }
    let column = match column {
        Some(c) => Some(c),
        None => match line {
            Some(_) => Some(1),
            None => None,
        },
    };
    Ok(PathWithLineAndColumn { path, line, column })
}

proof fn lemma_split_without_colon(s: Seq<char>)
    requires
        forall|i: int| 0 <= i < s.len() ==> s[i] != ':',
    ensures
        split_colons(s) == seq![s],
    decreases s.len(),
{
    if s.len() > 0 {
        lemma_split_without_colon(s.drop_last());
        assert(s[s.len() - 1] != ':');
        assert(s.drop_last().push(s.last()) =~= s);
        assert(seq![s.drop_last()].update(0, s.drop_last().push(s.last())) =~= seq![s]);
    } else {
        assert(s =~= Seq::<char>::empty());
        assert(split_colons(s) =~= seq![s]);
    }
}

/// A non-empty text without colons that does not read as a number is a path
/// alone: no line and no column.
pub proof fn lemma_plain_path_parses_to_itself(s: Seq<char>)
    requires
        s.len() > 0,
        forall|i: int| 0 <= i < s.len() ==> s[i] != ':',
        number_of(s) is None,
    ensures
        parse_goto(s) == Some((s, None::<usize>, None::<usize>)),
{
    lemma_split_without_colon(s);
    let segs = seq![s];
    assert(segs.drop_last() =~= Seq::<Seq<char>>::empty());
    assert(segs.last() == s);
    let g0 = gather(segs.drop_last());
    assert(g0 == (Seq::<char>::empty(), None::<usize>, None::<usize>));
    assert(absorb(g0, s) == (s, None::<usize>, None::<usize>));
    assert(gather(segs) == (s, None::<usize>, None::<usize>));
}

} // verus!

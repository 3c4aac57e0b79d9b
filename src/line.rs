use vstd::prelude::*;

verus! {

/// What a line of a BNX file is, by its prefix.
#[derive(Clone, Copy, Debug, PartialEq, Eq, Structural)]
pub enum LineKind {
    Header,
    BackboneStart,
    BasepairLabels,
    SnrLabels,
    IntensityLabels,
    Unrecognized,
}

/// The kind of a line: the first prefix that matches, in this order:
/// `#`, `0`, `1`, `QX11`, `QX12`.
pub open spec fn kind_of(s: Seq<char>) -> LineKind {
    if s.len() >= 1 && s[0] == '#' {
        LineKind::Header
    } else if s.len() >= 1 && s[0] == '0' {
        LineKind::BackboneStart
    } else if s.len() >= 1 && s[0] == '1' {
        LineKind::BasepairLabels
    } else if s.len() >= 4 && s[0] == 'Q' && s[1] == 'X' && s[2] == '1' && s[3] == '1' {
        LineKind::SnrLabels
    } else if s.len() >= 4 && s[0] == 'Q' && s[1] == 'X' && s[2] == '1' && s[3] == '2' {
        LineKind::IntensityLabels
    } else {
        LineKind::Unrecognized
    }
}

/// Classifies a line by its prefix alone; the rest of the line is not read.
pub fn classify(line: &str) -> (r: LineKind)
    ensures
        r == kind_of(line@),
{
    let n = line.unicode_len();
    if n == 0 {
        return LineKind::Unrecognized;
    }
    let c0 = line.get_char(0);
    if c0 == '#' {
        LineKind::Header
    } else if c0 == '0' {
        LineKind::BackboneStart
    } else if c0 == '1' {
        LineKind::BasepairLabels
    } else if n >= 4 && c0 == 'Q' && line.get_char(1) == 'X' && line.get_char(2) == '1' {
        let c3 = line.get_char(3);
        if c3 == '1' {
            LineKind::SnrLabels
        } else if c3 == '2' {
            LineKind::IntensityLabels
        } else {
            LineKind::Unrecognized
        }
    } else {
        LineKind::Unrecognized
    }
}

/// The pieces of `s` between tab characters, as `str::split('\t')` gives them:
/// one more piece than there are tabs, empty pieces included.
pub open spec fn split_tabs(s: Seq<char>) -> Seq<Seq<char>>
    decreases s.len(),
{
    if s.len() == 0 {
        seq![Seq::<char>::empty()]
    } else {
        let rest = split_tabs(s.drop_last());
        if s.last() == '\t' {
            rest.push(Seq::<char>::empty())
        } else {
            rest.update(rest.len() - 1, rest.last().push(s.last()))
        }
    }
}

/// The field at `index` of a tab-delimited line, if the line has that many fields.
pub open spec fn tab_field_of(s: Seq<char>, index: int) -> Option<Seq<char>> {
    let f = split_tabs(s);
    if 0 <= index < f.len() {
        Some(f[index])
    } else {
        None
    }
}

proof fn lemma_split_tabs_push(s: Seq<char>, c: char)
    ensures
        split_tabs(s).len() >= 1,
        c == '\t' ==> split_tabs(s.push(c)) == split_tabs(s).push(Seq::<char>::empty()),
        c != '\t' ==> split_tabs(s.push(c)) == split_tabs(s).update(
            split_tabs(s).len() - 1,
            split_tabs(s).last().push(c),
        ),
    decreases s.len(),
{
    if s.len() > 0 {
        lemma_split_tabs_push(s.drop_last(), s.last());
        assert(s.drop_last().push(s.last()) == s);
    }
    assert(s.push(c).drop_last() == s);
}

/// Extending a line keeps every field before its last one.
proof fn lemma_split_tabs_extend(s: Seq<char>, n: int, j: int)
    requires
        0 <= n <= s.len(),
        0 <= j < split_tabs(s.subrange(0, n)).len() - 1,
    ensures
        j < split_tabs(s).len() - 1,
        split_tabs(s)[j] == split_tabs(s.subrange(0, n))[j],
    decreases s.len() - n,
{
    if n < s.len() {
        let p = s.subrange(0, n);
        lemma_split_tabs_push(p, s[n]);
        assert(s.subrange(0, n + 1) == p.push(s[n]));
        lemma_split_tabs_extend(s, n + 1, j);
    } else {
        assert(s.subrange(0, n) == s);
    }
}

/// The field at `index` of a tab-delimited line, or `None` where the line has
/// fewer fields.
pub fn tab_field(line: &str, index: usize) -> (r: Option<String>)
    ensures
        r.is_some() == tab_field_of(line@, index as int).is_some(),
        r.is_some() ==> r.unwrap()@ == tab_field_of(line@, index as int).unwrap(),
{
    let n = line.unicode_len();
    let ghost s = line@;
    let mut i: usize = 0;
    let mut start: usize = 0;
    let mut tabs: usize = 0;
    proof {
        assert(s.subrange(0, 0) =~= Seq::<char>::empty());
    }
    while i < n
        invariant
            n == s.len(),
            s == line@,
            start <= i <= n,
            tabs <= index,
            tabs <= i,
            split_tabs(s.subrange(0, i as int)).len() == tabs + 1,
            split_tabs(s.subrange(0, i as int))[tabs as int] == s.subrange(start as int, i as int),
        decreases n - i,
    {
        let c = line.get_char(i);
        proof {
            lemma_split_tabs_push(s.subrange(0, i as int), c);
            assert(s.subrange(0, i + 1) == s.subrange(0, i as int).push(c));
        }
        if c == '\t' {
            if tabs == index {
                proof {
                    lemma_split_tabs_extend(s, i + 1, tabs as int);
                }
                return Some(line.substring_char(start, i).to_owned());
            }
            tabs = tabs + 1;
            start = i + 1;
            proof {
                assert(s.subrange(start as int, start as int) =~= Seq::<char>::empty());
            }
        } else {
            proof {
                assert(s.subrange(start as int, i + 1) == s.subrange(start as int, i as int).push(c));
            }
        }
        i = i + 1;
    }
    proof {
        assert(s.subrange(0, n as int) == s);
    }
    if tabs == index {
        Some(line.substring_char(start, n).to_owned())
    } else {
        None
    }
}


pub open spec fn is_digit(c: char) -> bool {
    '0' <= c && c <= '9'
}

/// The value of a run of decimal digits.
pub open spec fn digits_value(s: Seq<char>) -> int
    decreases s.len(),
{
    if s.len() == 0 {
        0
    } else {
        digits_value(s.drop_last()) * 10 + ((s.last() as u32) - ('0' as u32))
    }
}

/// One or more decimal digits and nothing else.
pub open spec fn all_digits(s: Seq<char>) -> bool {
    s.len() > 0 && forall|i: int| 0 <= i < s.len() ==> is_digit(#[trigger] s[i])
}

/// The integer that `s` writes: an optional `+` or `-`, then decimal digits.
pub open spec fn decimal_value(s: Seq<char>) -> Option<int> {
    if s.len() > 0 && s[0] == '-' && all_digits(s.skip(1)) {
        Some(-digits_value(s.skip(1)))
    } else if s.len() > 0 && s[0] == '+' && all_digits(s.skip(1)) {
        Some(digits_value(s.skip(1)))
    } else if all_digits(s) {
        Some(digits_value(s))
    } else {
        None
    }
}

/// What `str::parse::<i32>` gives: the decimal value where it fits in an `i32`.
pub open spec fn parsed_i32(s: Seq<char>) -> Option<i32> {
    match decimal_value(s) {
        Some(v) => if i32::MIN <= v <= i32::MAX {
            Some(v as i32)
        } else {
            None
        },
        None => None,
    }
}

/// Relies on `str::parse::<i32>` (i32's `FromStr`): it accepts an optional
/// sign followed by ASCII digits, and nothing else, and fails where the value
/// does not fit in an `i32`.
#[verifier::external_body]
fn parse_i32(s: &str) -> (r: Option<i32>)
    ensures
        r == parsed_i32(s@),
{
    s.parse::<i32>().ok()
}

/// A decimal integer, or 0 where the text is not one.
pub open spec fn int_or_zero(s: Seq<char>) -> i32 {
    match parsed_i32(s) {
        Some(v) => v,
        None => 0,
    }
}

/// Reads a decimal integer, and gives 0 where the text is not one.
pub fn parse_or_zero(text: &str) -> (r: i32)
    ensures
        r == int_or_zero(text@),
{
    match parse_i32(text) {
        Some(v) => v,
        None => 0,
    }
}

/// The index of the length field of a backbone line.
pub const LENGTH_FIELD: usize = 2;

/// The index of the label-count field of a backbone line.
pub const LABELS_FIELD: usize = 5;

/// The label count of a backbone line: its field at index 5 read as an
/// integer, 0 where that field is missing or not a number.
pub open spec fn label_count_of(backbone: Seq<char>) -> i32 {
    match tab_field_of(backbone, LABELS_FIELD as int) {
        Some(f) => int_or_zero(f),
        None => 0,
    }
}

/// Reads the label count of a backbone line, leniently.
pub fn label_count(backbone: &str) -> (r: i32)
    ensures
        r == label_count_of(backbone@),
{
    match tab_field(backbone, LABELS_FIELD) {
        Some(f) => parse_or_zero(f.as_str()),
        None => 0,
    }
}

} // verus!

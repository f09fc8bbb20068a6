use crate::text::{reads, texts};
use vstd::prelude::*;

verus! {

/// Whether `c` is white space: one of the characters with the Unicode property
/// `White_Space`. These are the tab, the line feed, the vertical tab, the form feed, the
/// carriage return and the blank, the next-line character, the no-break blank, the Ogham
/// space mark, the blanks of fixed width from the en quad to the hair space, the line and
/// paragraph separators, the narrow no-break blank, the medium mathematical blank and the
/// ideographic blank.
pub open spec fn white_space(c: char) -> bool {
    let n = c as u32;
    ||| 0x09 <= n <= 0x0d
    ||| n == 0x20
    ||| n == 0x85
    ||| n == 0xa0
    ||| n == 0x1680
    ||| 0x2000 <= n <= 0x200a
    ||| n == 0x2028
    ||| n == 0x2029
    ||| n == 0x202f
    ||| n == 0x205f
    ||| n == 0x3000
}

/// `char::is_whitespace`: whether the character has the Unicode property `White_Space`,
/// which is the set that `white_space` lists.
pub assume_specification[ char::is_whitespace ](c: char) -> (white: bool)
    ensures
        white == white_space(c),
;

/// The text `s` without the white space at its end.
pub open spec fn trim_end_text(s: Seq<char>) -> Seq<char>
    decreases s.len(),
{
    if s.len() > 0 && white_space(s.last()) {
        trim_end_text(s.drop_last())
    } else {
        s
    }
}

/// The text `s` without the white space at its start.
pub open spec fn trim_start_text(s: Seq<char>) -> Seq<char>
    decreases s.len(),
{
    if s.len() > 0 && white_space(s[0]) {
        trim_start_text(s.drop_first())
    } else {
        s
    }
}

/// The text `s` without the white space at its start and at its end.
pub open spec fn trim_text(s: Seq<char>) -> Seq<char> {
    trim_end_text(trim_start_text(s))
}

/// The words of `s`: its longest runs of characters that are not white space, in order.
pub open spec fn words(s: Seq<char>) -> Seq<Seq<char>>
    decreases s.len(),
{
    if s.len() == 0 {
        Seq::empty()
    } else {
        let before = words(s.drop_last());
        if white_space(s.last()) {
            before
        } else if s.len() >= 2 && !white_space(s[s.len() - 2]) {
            before.drop_last().push(before.last().push(s.last()))
        } else {
            before.push(seq![s.last()])
        }
    }
}

/// What follows the last `sep` in `s`; all of `s` if it holds none.
pub open spec fn last_piece(s: Seq<char>, sep: char) -> Seq<char>
    decreases s.len(),
{
    if s.len() == 0 || s.last() == sep {
        Seq::empty()
    } else {
        last_piece(s.drop_last(), sep).push(s.last())
    }
}

/// The characters of `s`.
fn chars_of(s: &str) -> (chars: Vec<char>)
    ensures
        chars@ == s@,
{
    let mut chars: Vec<char> = Vec::new();
    for c in it: s.chars()
        invariant
            it.seq() == s@,
            chars@ == s@.take(it.index() as int),
    {
        chars.push(c);
        proof {
            assert(chars@ =~= s@.take(it.index() + 1));
        }
    }
    proof {
        assert(s@.take(s@.len() as int) =~= s@);
    }
    chars
}

/// The characters of `chars` from `from` up to `to` as a string.
fn string_of(chars: &Vec<char>, from: usize, to: usize) -> (s: String)
    requires
        from <= to <= chars.len(),
    ensures
        s@ == chars@.subrange(from as int, to as int),
{
    let mut s = String::new();
    let mut i: usize = from;
    while i < to
        invariant
            from <= i <= to <= chars.len(),
            s@ == chars@.subrange(from as int, i as int),
        decreases to - i,
    {
        s.push(chars[i]);
        proof {
            assert(s@ =~= chars@.subrange(from as int, i + 1));
        }
        i += 1;
    }
    s
}

/// The bounds of `chars[from..]` without the white space at its start and at its end.
fn trim_bounds(chars: &Vec<char>, from: usize) -> (bounds: (usize, usize))
    requires
        from <= chars.len(),
    ensures
        bounds.0 <= bounds.1 <= chars.len(),
        from <= bounds.0,
        chars@.subrange(bounds.0 as int, bounds.1 as int) == trim_text(chars@.skip(from as int)),
{
    let ghost s = chars@.skip(from as int);
    let n: usize = chars.len();
    let mut start: usize = from;
    proof {
        assert(chars@.skip(start as int) =~= s);
    }
    while start < n && chars[start].is_whitespace()
        invariant
            from <= start <= n,
            n == chars.len(),
            trim_start_text(s) == trim_start_text(chars@.skip(start as int)),
        decreases n - start,
    {
        proof {
            assert(chars@.skip(start as int).drop_first() =~= chars@.skip(start + 1));
            assert(chars@.skip(start as int)[0] == chars@[start as int]);
        }
        start += 1;
    }
    proof {
        if start < n {
            assert(chars@.skip(start as int)[0] == chars@[start as int]);
        }
        assert(trim_start_text(s) == chars@.skip(start as int));
        assert(chars@.skip(start as int) =~= chars@.subrange(start as int, n as int));
    }
    let mut end: usize = n;
    while end > start && chars[end - 1].is_whitespace()
        invariant
            start <= end <= n,
            n == chars.len(),
            trim_text(s) == trim_end_text(chars@.subrange(start as int, end as int)),
        decreases end - start,
    {
        proof {
            let part = chars@.subrange(start as int, end as int);
            assert(part.last() == chars@[end - 1]);
            assert(part.drop_last() =~= chars@.subrange(start as int, end - 1));
        }
        end -= 1;
    }
    proof {
        let part = chars@.subrange(start as int, end as int);
        if end > start {
            assert(part.last() == chars@[end - 1]);
        }
    }
    (start, end)
}

/// The text `s` without the white space at its start and at its end.
pub fn trim(s: &str) -> (trimmed: String)
    ensures
        trimmed@ == trim_text(s@),
{
    let chars = chars_of(s);
    proof {
        assert(chars@.skip(0) =~= chars@);
    }
    let (start, end) = trim_bounds(&chars, 0);
    string_of(&chars, start, end)
}

/// Splits `s` into its words.
pub fn split_words(s: &str) -> (parts: Vec<String>)
    ensures
        texts(parts@) == words(s@),
{
    let mut parts: Vec<String> = Vec::new();
    let mut current = String::new();
    let mut in_word = false;
    proof {
        assert(texts(parts@) =~= Seq::<Seq<char>>::empty());
    }
    for c in it: s.chars()
        invariant
            it.seq() == s@,
            in_word <==> it.index() > 0 && !white_space(s@[it.index() - 1]),
            in_word ==> texts(parts@).push(current@) == words(
                s@.take(it.index() as int),
            ),
            !in_word ==> texts(parts@) == words(s@.take(it.index() as int)),
    {
        let ghost i = it.index() as int;
        let ghost done = texts(parts@);
        let ghost word = current@;
        proof {
            assert(s@.take(i + 1).drop_last() =~= s@.take(i));
            assert(s@.take(i + 1).last() == c);
            if i > 0 {
                assert(s@.take(i + 1)[i - 1] == s@[i - 1]);
            }
        }
        if c.is_whitespace() {
            if in_word {
                parts.push(current);
                current = String::new();
                proof {
                    assert(texts(parts@) =~= done.push(word));
                }
            }
            in_word = false;
        } else {
            if in_word {
                current.push(c);
                proof {
                    assert(done.push(word).drop_last() =~= done);
                }
            } else {
                current = String::new();
                current.push(c);
                proof {
                    assert(current@ =~= seq![c]);
                }
            }
            in_word = true;
        }
    }
    proof {
        assert(s@.take(s@.len() as int) =~= s@);
    }
    if in_word {
        let ghost done = texts(parts@);
        parts.push(current);
        proof {
            assert(texts(parts@) =~= done.push(current@));
        }
    }
    parts
}

/// Why the time unit of a parasitics file cannot be read.
#[derive(Copy, Clone, Debug, PartialEq, Eq, Structural)]
pub enum SpefError {
    /// The unit is neither `NS` nor `PS`.
    UnknownTimeUnit,
    /// The field is not a number and a unit.
    UnparsableTime,
}

/// A time unit as a parasitics file gives it: `scale` times ten to the power of `exponent`
/// seconds. The scale is the numeral as it stands in the file.
pub struct TimeUnit {
    pub scale: String,
    pub exponent: i8,
}

/// The time unit that the field `input` gives: it is made of two words, a numeral and `NS`
/// or `PS`.
pub open spec fn time_unit_of(input: Seq<char>) -> Result<(Seq<char>, i8), SpefError> {
    let parts = words(input);
    if parts.len() != 2 {
        Err(SpefError::UnparsableTime)
    } else if parts[1] == "NS"@ {
        Ok((parts[0], -9i8))
    } else if parts[1] == "PS"@ {
        Ok((parts[0], -12i8))
    } else {
        Err(SpefError::UnknownTimeUnit)
    }
}

/// Reads the field of a time unit.
pub fn parse_time(input: &str) -> (result: Result<TimeUnit, SpefError>)
    ensures
        match time_unit_of(input@) {
            Ok(unit) => result is Ok && result->Ok_0.scale@ == unit.0 && result->Ok_0.exponent
                == unit.1,
            Err(e) => result is Err && result->Err_0 == e,
        },
{
    let mut parts = split_words(input);
    if parts.len() != 2 {
        return Err(SpefError::UnparsableTime);
    }
    let exponent: i8 = if reads(&parts[1], "NS") {
        -9
    } else if reads(&parts[1], "PS") {
        -12
    } else {
        return Err(SpefError::UnknownTimeUnit);
    };
    parts.pop();
    match parts.pop() {
        Some(text) => Ok(TimeUnit { scale: text, exponent }),
        None => Err(SpefError::UnparsableTime),
    }
}

/// The field that the line `line` gives for the time unit, if it gives one: the line is
/// trimmed, and if what follows its last `*` starts with `T_UNIT`, the rest of that,
/// trimmed, is the field.
pub open spec fn t_unit_field(line: Seq<char>) -> Option<Seq<char>> {
    let piece = last_piece(trim_text(line), '*');
    if trim_text(line).len() > 0 && seq!['T', '_', 'U', 'N', 'I', 'T'].is_prefix_of(piece) {
        Some(trim_text(piece.skip(6)))
    } else {
        None
    }
}

/// The field of the first of the lines `lines` that gives the time unit.
pub open spec fn first_t_unit(lines: Seq<Seq<char>>) -> Option<Seq<char>>
    decreases lines.len(),
{
    if lines.len() == 0 {
        None
    } else {
        match t_unit_field(lines[0]) {
            Some(field) => Some(field),
            None => first_t_unit(lines.drop_first()),
        }
    }
}

/// Reads the field of the time unit from a line, if the line gives it.
pub fn find_t_unit_in_line(line: &str) -> (field: Option<String>)
    ensures
        match t_unit_field(line@) {
            Some(text) => field is Some && field->0@ == text,
            None => field is None,
        },
{
    let chars = chars_of(line);
    proof {
        assert(chars@.skip(0) =~= chars@);
    }
    let (start, end) = trim_bounds(&chars, 0);
    if start == end {
        return None;
    }
    let ghost trimmed = chars@.subrange(start as int, end as int);
    // What follows the last `*`.
    let mut piece: Vec<char> = Vec::new();
    let mut i: usize = start;
    proof {
        assert(trimmed.take(0) =~= Seq::<char>::empty());
    }
    while i < end
        invariant
            start <= i <= end <= chars.len(),
            trimmed == chars@.subrange(start as int, end as int),
            piece@ == last_piece(trimmed.take(i - start), '*'),
        decreases end - i,
    {
        proof {
            assert(trimmed.take(i + 1 - start).drop_last() =~= trimmed.take(i - start));
            assert(trimmed.take(i + 1 - start).last() == chars@[i as int]);
        }
        if chars[i] == '*' {
            piece.clear();
        } else {
            piece.push(chars[i]);
        }
        i += 1;
    }
    proof {
        assert(trimmed.take(end - start) =~= trimmed);
    }
    let ghost tag = seq!['T', '_', 'U', 'N', 'I', 'T'];
    if piece.len() < 6 {
        return None;
    }
    if !(piece[0] == 'T' && piece[1] == '_' && piece[2] == 'U' && piece[3] == 'N' && piece[4]
        == 'I' && piece[5] == 'T') {
        proof {
            assert(piece@.subrange(0, 6) != tag) by {
                if piece@.subrange(0, 6) == tag {
                    assert(piece@.subrange(0, 6)[0] == tag[0]);
                    assert(piece@.subrange(0, 6)[1] == tag[1]);
                    assert(piece@.subrange(0, 6)[2] == tag[2]);
                    assert(piece@.subrange(0, 6)[3] == tag[3]);
                    assert(piece@.subrange(0, 6)[4] == tag[4]);
                    assert(piece@.subrange(0, 6)[5] == tag[5]);
                }
            }
        }
        return None;
    }
    proof {
        assert(piece@.subrange(0, 6) =~= tag);
    }
    let (from, to) = trim_bounds(&piece, 6);
    Some(string_of(&piece, from, to))
}

/// Reads the field of the time unit from the first of the lines that gives it.
pub fn find_t_unit(lines: &Vec<String>) -> (field: Option<String>)
    ensures
        match first_t_unit(texts(lines@)) {
            Some(text) => field is Some && field->0@ == text,
            None => field is None,
        },
{
    let ghost all = texts(lines@);
    let mut i: usize = 0;
    proof {
        assert(all.skip(0) =~= all);
    }
    while i < lines.len()
        invariant
            i <= lines.len(),
            all == texts(lines@),
            first_t_unit(all) == first_t_unit(all.skip(i as int)),
        decreases lines.len() - i,
    {
        proof {
            assert(all.skip(i as int)[0] == lines@[i as int]@);
            assert(all.skip(i as int).drop_first() =~= all.skip(i + 1));
        }
        match find_t_unit_in_line(lines[i].as_str()) {
            Some(field) => {
                return Some(field);
            },
            None => {},
        }
        i += 1;
    }
    proof {
        assert(all.skip(lines.len() as int).len() == 0);
    }
    None
}

} // verus!

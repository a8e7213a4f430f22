//! The mapping file: one rule per line, `IN_CH:IN_CC,OUT_CH:OUT_CC`.
//!
//! Lines are separated by `\n`. A line with fewer than two comma-separated
//! fields is skipped, as is one where either field, trimmed of white space,
//! has fewer than two colon-separated parts. A channel that is not a decimal
//! number in 1..=16 (an empty one included) is the wildcard channel. A
//! controller that is not a decimal number in 0..=127 makes the whole file
//! invalid. A number may start with one `+`. White space is trimmed as
//! `str::trim` trims it on UTF-8 text. Later rules replace earlier rules with the same key.

use crate::table::{CCMap, CCMapElem};
use vstd::prelude::*;

verus! {

/// The parts of `s` between the occurrences of `sep`, as `str::split` gives
/// them: `n` separators give `n + 1` parts, empty ones included.
pub open spec fn split(s: Seq<u8>, sep: u8) -> Seq<Seq<u8>>
    decreases s.len(),
{
    if s.len() == 0 {
        seq![Seq::<u8>::empty()]
    } else {
        let prev = split(s.drop_last(), sep);
        if s.last() == sep {
            prev.push(Seq::<u8>::empty())
        } else {
            prev.update(prev.len() - 1, prev.last().push(s.last()))
        }
    }
}

/// An ASCII white-space byte: space, tab, line feed, vertical tab, form
/// feed or carriage return.
pub open spec fn is_ascii_space(b: u8) -> bool {
    b == 0x20 || (0x09 <= b && b <= 0x0D)
}

/// The two-byte UTF-8 form of a white-space character: U+0085 or U+00A0.
pub open spec fn is_space2(a: u8, b: u8) -> bool {
    a == 0xC2 && (b == 0x85 || b == 0xA0)
}

/// The three-byte UTF-8 form of a white-space character: U+1680,
/// U+2000 to U+200A, U+2028, U+2029, U+202F, U+205F or U+3000.
pub open spec fn is_space3(a: u8, b: u8, c: u8) -> bool {
    ||| a == 0xE1 && b == 0x9A && c == 0x80
    ||| a == 0xE2 && b == 0x80 && ((0x80 <= c && c <= 0x8A) || c == 0xA8 || c == 0xA9 || c == 0xAF)
    ||| a == 0xE2 && b == 0x81 && c == 0x9F
    ||| a == 0xE3 && b == 0x80 && c == 0x80
}

/// The length in bytes of the white-space character that `s` starts with,
/// or 0 if it starts with none.
pub open spec fn leading_space(s: Seq<u8>) -> nat {
    if s.len() >= 1 && is_ascii_space(s[0]) {
        1
    } else if s.len() >= 2 && is_space2(s[0], s[1]) {
        2
    } else if s.len() >= 3 && is_space3(s[0], s[1], s[2]) {
        3
    } else {
        0
    }
}

/// The length in bytes of the white-space character that `s` ends with,
/// or 0 if it ends with none.
pub open spec fn trailing_space(s: Seq<u8>) -> nat {
    let n = s.len();
    if n >= 1 && is_ascii_space(s[n - 1]) {
        1
    } else if n >= 2 && is_space2(s[n - 2], s[n - 1]) {
        2
    } else if n >= 3 && is_space3(s[n - 3], s[n - 2], s[n - 1]) {
        3
    } else {
        0
    }
}

/// `s` without leading white space.
pub open spec fn trim_start(s: Seq<u8>) -> Seq<u8>
    decreases s.len(),
{
    if leading_space(s) > 0 {
        trim_start(s.subrange(leading_space(s) as int, s.len() as int))
    } else {
        s
    }
}

/// `s` without trailing white space.
pub open spec fn trim_end(s: Seq<u8>) -> Seq<u8>
    decreases s.len(),
{
    if trailing_space(s) > 0 {
        trim_end(s.subrange(0, s.len() - trailing_space(s)))
    } else {
        s
    }
}

/// `s` without leading and trailing white space.
pub open spec fn trim(s: Seq<u8>) -> Seq<u8> {
    trim_end(trim_start(s))
}

/// An ASCII decimal digit.
pub open spec fn is_digit(b: u8) -> bool {
    0x30 <= b && b <= 0x39
}

/// `s` is a non-empty run of decimal digits.
pub open spec fn is_digits(s: Seq<u8>) -> bool {
    s.len() > 0 && forall|i: int| 0 <= i < s.len() ==> is_digit(#[trigger] s[i])
}

/// The digits of a number field: without the one `+` it may start with.
pub open spec fn unsigned_digits(s: Seq<u8>) -> Seq<u8> {
    if s.len() > 0 && s[0] == 0x2B {
        s.drop_first()
    } else {
        s
    }
}

/// `s` is a decimal number: an optional `+` and one or more digits.
pub open spec fn is_number(s: Seq<u8>) -> bool {
    is_digits(unsigned_digits(s))
}

/// The value of the decimal number `s`.
pub open spec fn number_value(s: Seq<u8>) -> nat {
    digits_value(unsigned_digits(s))
}

/// The number that the decimal digits `s` write.
pub open spec fn digits_value(s: Seq<u8>) -> nat
    decreases s.len(),
{
    if s.len() == 0 {
        0
    } else {
        digits_value(s.drop_last()) * 10 + (s.last() - 0x30) as nat
    }
}

/// The channel that a field names: `None` (the wildcard) unless the field
/// is a decimal number in 1..=16.
pub open spec fn channel_field(s: Seq<u8>) -> Option<u8> {
    if is_number(s) && 1 <= number_value(s) <= 16 {
        Some(number_value(s) as u8)
    } else {
        None
    }
}

/// The controller that a field names, if it is a decimal number in 0..=127.
pub open spec fn controller_field(s: Seq<u8>) -> Option<u8> {
    if is_number(s) && number_value(s) <= 127 {
        Some(number_value(s) as u8)
    } else {
        None
    }
}

/// What one line of a mapping file says.
#[derive(Debug, Clone, Copy, PartialEq, Eq, Structural)]
pub enum LineRule {
    /// The line holds no rule.
    Skip,
    /// The line maps the first element to the second.
    Rule(CCMapElem, CCMapElem),
    /// The line has a rule whose controller is not a number in 0..=127.
    Bad,
}

/// The meaning of one line.
pub open spec fn line_rule(line: Seq<u8>) -> LineRule {
    let fields = split(line, 0x2C);
    if fields.len() < 2 {
        LineRule::Skip
    } else {
        let ins = split(trim(fields[0]), 0x3A);
        let outs = split(trim(fields[1]), 0x3A);
        if ins.len() < 2 || outs.len() < 2 {
            LineRule::Skip
        } else {
            match (controller_field(ins[1]), controller_field(outs[1])) {
                (Some(a), Some(b)) => LineRule::Rule(
                    CCMapElem { ch: channel_field(ins[0]), num: a },
                    CCMapElem { ch: channel_field(outs[0]), num: b },
                ),
                _ => LineRule::Bad,
            }
        }
    }
}

/// The table that the lines give when read in order, or the index of the
/// first line that makes them invalid.
pub open spec fn rules_of(lines: Seq<Seq<u8>>) -> Result<Map<CCMapElem, CCMapElem>, nat>
    decreases lines.len(),
{
    if lines.len() == 0 {
        Ok(Map::empty())
    } else {
        match rules_of(lines.drop_last()) {
            Err(i) => Err(i),
            Ok(m) => match line_rule(lines.last()) {
                LineRule::Skip => Ok(m),
                LineRule::Rule(k, v) => Ok(m.insert(k, v)),
                LineRule::Bad => Err((lines.len() - 1) as nat),
            },
        }
    }
}

/// The table that a whole mapping file gives, or the index of its first
/// invalid line.
pub open spec fn mapping_of(text: Seq<u8>) -> Result<Map<CCMapElem, CCMapElem>, nat> {
    rules_of(split(text, 0x0A))
}

/// A mapping file with a rule whose controller is not a number in 0..=127.
#[derive(Debug, Clone, Copy, PartialEq, Eq, Structural)]
pub struct MappingError {
    /// The zero-based index of the first such line.
    pub line_index: usize,
}

/// Splits `s` at each `sep`.
pub fn split_bytes(s: &[u8], sep: u8) -> (r: Vec<Vec<u8>>)
    ensures
        r.len() == split(s@, sep).len(),
        forall|j: int| 0 <= j < r.len() ==> #[trigger] r[j]@ == split(s@, sep)[j],
{
    let mut parts: Vec<Vec<u8>> = Vec::new();
    let mut cur: Vec<u8> = Vec::new();
    let mut i: usize = 0;
    while i < s.len()
        invariant
            i <= s.len(),
            split(s@.take(i as int), sep).len() == parts.len() + 1,
            forall|j: int| 0 <= j < parts.len() ==> #[trigger] parts[j]@ == split(s@.take(i as int), sep)[j],
            cur@ == split(s@.take(i as int), sep).last(),
        decreases s.len() - i,
    {
        let b = s[i];
        proof {
            assert(s@.take(i + 1).drop_last() =~= s@.take(i as int));
        }
        if b == sep {
            parts.push(cur);
            cur = Vec::new();
        } else {
            cur.push(b);
        }
        i += 1;
    }
    assert(s@.take(i as int) =~= s@);
    parts.push(cur);
    parts
}

/// The length of the white-space character at `s[start..end]`'s start (see
/// `leading_space`).
fn leading_space_at(s: &[u8], start: usize, end: usize) -> (n: usize)
    requires
        start <= end <= s.len(),
    ensures
        n == leading_space(s@.subrange(start as int, end as int)),
{
    let len = end - start;
    if len >= 1 && (s[start] == 0x20 || (0x09 <= s[start] && s[start] <= 0x0D)) {
        1
    } else if len >= 2 && s[start] == 0xC2 && (s[start + 1] == 0x85 || s[start + 1] == 0xA0) {
        2
    } else if len >= 3 && is_space3_bytes(s[start], s[start + 1], s[start + 2]) {
        3
    } else {
        0
    }
}

/// The length of the white-space character at `s[start..end]`'s end (see
/// `trailing_space`).
fn trailing_space_at(s: &[u8], start: usize, end: usize) -> (n: usize)
    requires
        start <= end <= s.len(),
    ensures
        n == trailing_space(s@.subrange(start as int, end as int)),
{
    let len = end - start;
    if len >= 1 && (s[end - 1] == 0x20 || (0x09 <= s[end - 1] && s[end - 1] <= 0x0D)) {
        1
    } else if len >= 2 && s[end - 2] == 0xC2 && (s[end - 1] == 0x85 || s[end - 1] == 0xA0) {
        2
    } else if len >= 3 && is_space3_bytes(s[end - 3], s[end - 2], s[end - 1]) {
        3
    } else {
        0
    }
}

fn is_space3_bytes(a: u8, b: u8, c: u8) -> (r: bool)
    ensures
        r == is_space3(a, b, c),
{
    (a == 0xE1 && b == 0x9A && c == 0x80) || (a == 0xE2 && b == 0x80 && ((0x80 <= c && c <= 0x8A)
        || c == 0xA8 || c == 0xA9 || c == 0xAF)) || (a == 0xE2 && b == 0x81 && c == 0x9F) || (a
        == 0xE3 && b == 0x80 && c == 0x80)
}

/// `s` without leading and trailing white space, ASCII and Unicode (as
/// `str::trim` has it on UTF-8 text).
pub fn trim_bytes(s: &[u8]) -> (r: Vec<u8>)
    ensures
        r@ == trim(s@),
{
    let mut start: usize = 0;
    assert(s@.subrange(0, s.len() as int) =~= s@);
    let mut n = leading_space_at(s, start, s.len());
    while n > 0
        invariant
            start <= s.len(),
            n == leading_space(s@.subrange(start as int, s.len() as int)),
            trim_start(s@) == trim_start(s@.subrange(start as int, s.len() as int)),
        decreases s.len() - start,
    {
        assert(s@.subrange(start as int, s.len() as int).subrange(n as int, s.len() - start)
            =~= s@.subrange(start + n, s.len() as int));
        start += n;
        n = leading_space_at(s, start, s.len());
    }
    let ghost front = s@.subrange(start as int, s.len() as int);
    assert(trim_start(s@) == front);
    let mut end: usize = s.len();
    let mut m = trailing_space_at(s, start, end);
    while m > 0
        invariant
            start <= end <= s.len(),
            front == s@.subrange(start as int, s.len() as int),
            m == trailing_space(s@.subrange(start as int, end as int)),
            trim_end(front) == trim_end(s@.subrange(start as int, end as int)),
        decreases end - start,
    {
        assert(s@.subrange(start as int, end as int).subrange(0, end - start - m) =~= s@.subrange(
            start as int,
            end - m,
        ));
        end -= m;
        m = trailing_space_at(s, start, end);
    }
    let mut r: Vec<u8> = Vec::new();
    let mut j: usize = start;
    while j < end
        invariant
            start <= j <= end <= s.len(),
            r@ == s@.subrange(start as int, j as int),
        decreases end - j,
    {
        r.push(s[j]);
        j += 1;
        assert(r@ =~= s@.subrange(start as int, j as int));
    }
    r
}

/// The number in 0..=255 that the digits `s[from..]` write, if they are
/// digits and the number fits.
fn digits_u8(s: &[u8], from: usize) -> (r: Option<u8>)
    requires
        from <= s.len(),
    ensures
        ({
            let d = s@.subrange(from as int, s.len() as int);
            r == (if is_digits(d) && digits_value(d) <= 255 {
                Some(digits_value(d) as u8)
            } else {
                None
            })
        }),
{
    let ghost d = s@.subrange(from as int, s.len() as int);
    if from == s.len() {
        return None;
    }
    let mut acc: u32 = 0;
    let mut over: bool = false;
    let mut i: usize = from;
    while i < s.len()
        invariant
            from <= i <= s.len(),
            d == s@.subrange(from as int, s.len() as int),
            forall|j: int| 0 <= j < i - from ==> is_digit(#[trigger] d[j]),
            over ==> digits_value(d.take(i - from)) > 255,
            !over ==> acc == digits_value(d.take(i - from)) && acc <= 255,
        decreases s.len() - i,
    {
        let b = s[i];
        if b < 0x30 || b > 0x39 {
            assert(d[i - from] == b);
            return None;
        }
        proof {
            assert(d.take(i - from + 1).drop_last() =~= d.take(i - from));
            assert(d.take(i - from + 1).last() == b);
        }
        if !over {
            let next: u32 = acc * 10 + (b - 0x30) as u32;
            if next > 255 {
                over = true;
            } else {
                acc = next;
            }
        }
        i += 1;
    }
    assert(d.take(i - from) =~= d);
    if over {
        None
    } else {
        Some(acc as u8)
    }
}

/// The number in 0..=255 that `s` writes (an optional `+`, then decimal
/// digits, as `u8`'s `FromStr` reads it), if it is one.
pub fn decimal_u8(s: &[u8]) -> (r: Option<u8>)
    ensures
        r == (if is_number(s@) && number_value(s@) <= 255 {
            Some(number_value(s@) as u8)
        } else {
            None
        }),
{
    if s.len() > 0 && s[0] == 0x2B {
        assert(s@.subrange(1, s.len() as int) =~= s@.drop_first());
        digits_u8(s, 1)
    } else {
        assert(s@.subrange(0, s.len() as int) =~= s@);
        digits_u8(s, 0)
    }
}

/// The channel that a field names (see `channel_field`).
pub fn parse_channel(s: &[u8]) -> (r: Option<u8>)
    ensures
        r == channel_field(s@),
{
    match decimal_u8(s) {
        Some(v) => if 1 <= v && v <= 16 {
            Some(v)
        } else {
            None
        },
        None => None,
    }
}

/// The controller that a field names (see `controller_field`).
pub fn parse_controller(s: &[u8]) -> (r: Option<u8>)
    ensures
        r == controller_field(s@),
{
    match decimal_u8(s) {
        Some(v) => if v <= 127 {
            Some(v)
        } else {
            None
        },
        None => None,
    }
}

/// Reads one line of a mapping file.
pub fn parse_line(line: &[u8]) -> (r: LineRule)
    ensures
        r == line_rule(line@),
{
    let fields = split_bytes(line, 0x2C);
    if fields.len() < 2 {
        return LineRule::Skip;
    }
    let key = trim_bytes(fields[0].as_slice());
    let value = trim_bytes(fields[1].as_slice());
    let ins = split_bytes(key.as_slice(), 0x3A);
    let outs = split_bytes(value.as_slice(), 0x3A);
    if ins.len() < 2 || outs.len() < 2 {
        return LineRule::Skip;
    }
    let in_num = parse_controller(ins[1].as_slice());
    let out_num = parse_controller(outs[1].as_slice());
    match (in_num, out_num) {
        (Some(a), Some(b)) => LineRule::Rule(
            CCMapElem { ch: parse_channel(ins[0].as_slice()), num: a },
            CCMapElem { ch: parse_channel(outs[0].as_slice()), num: b },
        ),
        _ => LineRule::Bad,
    }
}

proof fn lemma_err_extends(lines: Seq<Seq<u8>>, k: int)
    requires
        0 <= k <= lines.len(),
        rules_of(lines.take(k)) is Err,
    ensures
        rules_of(lines) == rules_of(lines.take(k)),
    decreases lines.len() - k,
{
    if k == lines.len() {
        assert(lines.take(k) =~= lines);
    } else {
        assert(lines.take(k + 1).drop_last() =~= lines.take(k));
        lemma_err_extends(lines, k + 1);
    }
}

/// Reads a mapping file into a table: the rules of its lines in order, or
/// an error naming the first line whose controller is not a number in
/// 0..=127.
pub fn parse_mapping(text: &[u8]) -> (r: Result<CCMap, MappingError>)
    ensures
        match mapping_of(text@) {
            Ok(m) => r is Ok && r->Ok_0@ == m && r->Ok_0.wf(),
            Err(i) => r is Err && r->Err_0.line_index == i,
        },
{
    let lines = split_bytes(text, 0x0A);
    let ghost ls = split(text@, 0x0A);
    let mut mapping = CCMap::new();
    let mut i: usize = 0;
    while i < lines.len()
        invariant
            ls == split(text@, 0x0A),
            lines.len() == ls.len(),
            forall|j: int| 0 <= j < lines.len() ==> #[trigger] lines[j]@ == ls[j],
            i <= lines.len(),
            mapping.wf(),
            rules_of(ls.take(i as int)) == Ok::<Map<CCMapElem, CCMapElem>, nat>(mapping@),
        decreases lines.len() - i,
    {
        proof {
            assert(ls.take(i + 1).drop_last() =~= ls.take(i as int));
        }
        let rule = parse_line(lines[i].as_slice());
        match rule {
            LineRule::Skip => {},
            LineRule::Rule(k, v) => {
                mapping.insert(k, v);
            },
            LineRule::Bad => {
                proof {
                    assert(ls.take(i + 1).last() == ls[i as int]);
                    assert(rules_of(ls.take(i + 1)) == Err::<Map<CCMapElem, CCMapElem>, nat>(i as nat));
                    lemma_err_extends(ls, i + 1);
                }
                return Err(MappingError { line_index: i });
            },
        }
        i += 1;
    }
    assert(ls.take(i as int) =~= ls);
    Ok(mapping)
}

} // verus!

//! Records of a watch list: one line of text names an object and the level
//! from which it is worth a notice.
//!
//! A line is a record where it holds exactly one space. What stands before
//! the space, without the white space around it, is the name. What stands
//! after it, without the white space around it, is the level: decimal digits,
//! with or without a `+` in front, that fit a `u32`. Any other line is no
//! record.

use vstd::prelude::*;

verus! {

/// The characters that Unicode lists as white space.
pub open spec fn is_white(c: char) -> bool {
    let u = c as u32;
    ||| 0x09 <= u <= 0x0D
    ||| u == 0x20
    ||| u == 0x85
    ||| u == 0xA0
    ||| u == 0x1680
    ||| 0x2000 <= u <= 0x200A
    ||| u == 0x2028
    ||| u == 0x2029
    ||| u == 0x202F
    ||| u == 0x205F
    ||| u == 0x3000
}

/// A text without the white space at its start.
pub open spec fn trim_start(text: Seq<char>) -> Seq<char>
    decreases text.len(),
{
    if text.len() > 0 && is_white(text[0]) {
        trim_start(text.skip(1))
    } else {
        text
    }
}

/// A text without the white space at its end.
pub open spec fn trim_end(text: Seq<char>) -> Seq<char>
    decreases text.len(),
{
    if text.len() > 0 && is_white(text.last()) {
        trim_end(text.drop_last())
    } else {
        text
    }
}

/// A text without the white space at its start and at its end.
pub open spec fn trimmed(text: Seq<char>) -> Seq<char> {
    trim_end(trim_start(text))
}

/// The ten ASCII digits.
pub open spec fn is_digit(c: char) -> bool {
    0x30 <= c as u32 <= 0x39
}

/// The number that a text of digits is in base ten.
pub open spec fn digits_value(digits: Seq<char>) -> nat
    decreases digits.len(),
{
    if digits.len() == 0 {
        0
    } else {
        10 * digits_value(digits.drop_last()) + (digits.last() as u32 - 0x30) as nat
    }
}

/// A text without the `+` in front of it, if it has one.
pub open spec fn without_plus(text: Seq<char>) -> Seq<char> {
    if text.len() > 0 && text[0] == '+' {
        text.skip(1)
    } else {
        text
    }
}

/// The level that a text stands for, if it stands for one.
pub open spec fn level_of(text: Seq<char>) -> Option<u32> {
    let digits = without_plus(text);
    if digits.len() > 0 && (forall|i: int| 0 <= i < digits.len() ==> is_digit(#[trigger] digits[i]))
        && digits_value(digits) <= u32::MAX {
        Some(digits_value(digits) as u32)
    } else {
        None
    }
}

/// The name and the level of a line, if the line is a record.
pub open spec fn record_of(line: Seq<char>) -> Option<(Seq<char>, u32)> {
    if exists|at: int| is_only_space(line, at) {
        let at = choose|at: int| is_only_space(line, at);
        match level_of(trimmed(line.skip(at + 1))) {
            Some(level) => Some((trimmed(line.take(at)), level)),
            None => None,
        }
    } else {
        None
    }
}

/// `at` is the place of a space in the line, and the line has no other.
pub open spec fn is_only_space(line: Seq<char>, at: int) -> bool {
    &&& 0 <= at < line.len()
    &&& forall|i: int| 0 <= i < line.len() ==> (#[trigger] line[i] == ' ' <==> i == at)
}

/// An object that is watched.
#[derive(Clone, Debug, PartialEq, Eq)]
pub struct Watched {
    /// The object's name.
    pub name: Vec<char>,
    /// The level from which the object is worth a notice.
    pub threshold: u32,
}

impl View for Watched {
    type V = (Seq<char>, u32);

    open spec fn view(&self) -> (Seq<char>, u32) {
        (self.name@, self.threshold)
    }
}

impl Watched {
    /// Whether a level is worth a notice: it is the threshold or above it.
    pub fn reached_by(&self, level: u32) -> (reached: bool)
        ensures
            reached == (level >= self.threshold),
    {
        level >= self.threshold
    }
}

/// Tells white space from other characters.
pub fn white(c: char) -> (w: bool)
    ensures
        w == is_white(c),
{
    let u = c as u32;
    (0x09 <= u && u <= 0x0D) || u == 0x20 || u == 0x85 || u == 0xA0 || u == 0x1680 || (0x2000 <= u
        && u <= 0x200A) || u == 0x2028 || u == 0x2029 || u == 0x202F || u == 0x205F || u == 0x3000
}

/// Without its first `k` characters, white all, a text is trimmed at the start as before.
proof fn lemma_trim_start_skips(text: Seq<char>, k: int)
    requires
        0 <= k <= text.len(),
        forall|i: int| 0 <= i < k ==> is_white(#[trigger] text[i]),
    ensures
        trim_start(text) == trim_start(text.skip(k)),
    decreases k,
{
    if k > 0 {
        assert(text.skip(1).skip(k - 1) == text.skip(k));
        lemma_trim_start_skips(text.skip(1), k - 1);
    } else {
        assert(text.skip(0) == text);
    }
}

/// Without its last characters, white all, a text is trimmed at the end as before.
proof fn lemma_trim_end_takes(text: Seq<char>, k: int)
    requires
        0 <= k <= text.len(),
        forall|i: int| k <= i < text.len() ==> is_white(#[trigger] text[i]),
    ensures
        trim_end(text) == trim_end(text.take(k)),
    decreases text.len() - k,
{
    if k < text.len() {
        assert(text.drop_last().take(k) == text.take(k));
        lemma_trim_end_takes(text.drop_last(), k);
    } else {
        assert(text.take(k) == text);
    }
}

/// The part of `line` from `from` to `to` without the white space around
/// it, as the two ends of what is left.
fn trim_range(line: &[char], from: usize, to: usize) -> (ends: (usize, usize))
    requires
        from <= to <= line@.len(),
    ensures
        from <= ends.0 <= ends.1 <= to,
        line@.subrange(ends.0 as int, ends.1 as int) == trimmed(line@.subrange(from as int, to as int)),
{
    let ghost part = line@.subrange(from as int, to as int);
    let mut start = from;
    while start < to && white(line[start])
        invariant
            from <= start <= to <= line@.len(),
            forall|i: int| from <= i < start ==> is_white(#[trigger] line@[i]),
        decreases to - start,
    {
        start += 1;
    }
    let mut end = to;
    while end > start && white(line[end - 1])
        invariant
            start <= end <= to <= line@.len(),
            forall|i: int| end <= i < to ==> is_white(#[trigger] line@[i]),
        decreases end,
    {
        end -= 1;
    }
    proof {
        let front = part.skip(start - from);
        assert forall|i: int| 0 <= i < start - from implies is_white(#[trigger] part[i]) by {
            assert(part[i] == line@[from + i]);
        }
        lemma_trim_start_skips(part, start - from);
        assert(front == line@.subrange(start as int, to as int));
        assert(trim_start(front) == front) by {
            if front.len() > 0 {
                assert(front[0] == line@[start as int]);
            }
        }
        let kept = line@.subrange(start as int, end as int);
        assert forall|i: int| end - start <= i < front.len() implies is_white(#[trigger] front[i]) by {
            assert(front[i] == line@[start + i]);
        }
        lemma_trim_end_takes(front, end - start);
        assert(front.take(end - start) == kept);
        assert(trim_end(kept) == kept) by {
            if kept.len() > 0 {
                assert(kept.last() == line@[end - 1]);
            }
        }
    }
    (start, end)
}

/// A text of digits stands for a number that is at least the number of any of its beginnings.
proof fn lemma_digits_value_grows(digits: Seq<char>, k: int)
    requires
        0 <= k <= digits.len(),
    ensures
        digits_value(digits.take(k)) <= digits_value(digits),
    decreases digits.len() - k,
{
    if k < digits.len() {
        assert(digits.drop_last().take(k) == digits.take(k));
        lemma_digits_value_grows(digits.drop_last(), k);
    } else {
        assert(digits.take(k) == digits);
    }
}

/// The level that the part of `line` from `from` to `to` stands for.
fn read_level(line: &[char], from: usize, to: usize) -> (level: Option<u32>)
    requires
        from <= to <= line@.len(),
    ensures
        level == level_of(line@.subrange(from as int, to as int)),
{
    let ghost text = line@.subrange(from as int, to as int);
    let first = if from < to && line[from] == '+' {
        from + 1
    } else {
        from
    };
    let ghost digits = line@.subrange(first as int, to as int);
    proof {
        if from < to {
            assert(text[0] == line@[from as int]);
        }
        if first > from {
            assert(text.skip(1) == digits);
        } else {
            assert(text == digits);
        }
    }
    if first == to {
        return None;
    }
    let mut value: u32 = 0;
    let mut i = first;
    while i < to
        invariant
            from <= first <= i <= to <= line@.len(),
            first < to,
            digits == line@.subrange(first as int, to as int),
            digits == without_plus(line@.subrange(from as int, to as int)),
            forall|j: int| 0 <= j < i - first ==> is_digit(#[trigger] digits[j]),
            value == digits_value(digits.take(i - first)),
        decreases to - i,
    {
        let u = line[i] as u32;
        proof {
            assert(digits[i - first] == line@[i as int]);
            assert(digits.take(i - first + 1).drop_last() == digits.take(i - first));
            assert(digits.take(i - first + 1).last() == line@[i as int]);
            lemma_digits_value_grows(digits, i - first + 1);
        }
        if u < 0x30 || u > 0x39 {
            assert(!is_digit(digits[i - first]));
            return None;
        }
        let d = u - 0x30;
        assert(digits_value(digits.take(i - first + 1)) == 10 * value + d);
        if value > (u32::MAX - d) / 10 {
            return None;
        }
        value = 10 * value + d;
        i += 1;
    }
    proof {
        assert(digits.take(to - first) == digits);
    }
    Some(value)
}

/// Reads a line of a watch list: the record that it is, or `None` where it
/// is none.
pub fn parse_record(line: &[char]) -> (record: Option<Watched>)
    ensures
        match record {
            Some(watched) => record_of(line@) == Some(watched@),
            None => record_of(line@).is_none(),
        },
{
    let n = line.len();
    let mut at: usize = 0;
    while at < n && line[at] != ' '
        invariant
            at <= n == line@.len(),
            forall|i: int| 0 <= i < at ==> line@[i] != ' ',
        decreases n - at,
    {
        at += 1;
    }
    if at == n {
        assert forall|k: int| !is_only_space(line@, k) by {
            if is_only_space(line@, k) {
                assert(line@[k] == ' ');
            }
        }
        return None;
    }
    let mut other = at + 1;
    while other < n && line[other] != ' '
        invariant
            at < other <= n == line@.len(),
            forall|i: int| at < i < other ==> line@[i] != ' ',
        decreases n - other,
    {
        other += 1;
    }
    if other < n {
        assert forall|k: int| !is_only_space(line@, k) by {
            if is_only_space(line@, k) {
                assert(line@[at as int] == ' ');
                assert(line@[other as int] == ' ');
            }
        }
        return None;
    }
    proof {
        assert(is_only_space(line@, at as int));
        let chosen = choose|k: int| is_only_space(line@, k);
        assert(line@[at as int] == ' ');
        assert(chosen == at);
        assert(line@.take(at as int) == line@.subrange(0, at as int));
        assert(line@.skip(at + 1) == line@.subrange(at + 1, n as int));
    }
    let (name_start, name_end) = trim_range(line, 0, at);
    let (level_start, level_end) = trim_range(line, at + 1, n);
    match read_level(line, level_start, level_end) {
        Some(threshold) => {
            let mut name: Vec<char> = Vec::new();
            let mut i = name_start;
            while i < name_end
                invariant
                    name_start <= i <= name_end <= line@.len(),
                    name@ == line@.subrange(name_start as int, i as int),
                decreases name_end - i,
            {
                name.push(line[i]);
                i += 1;
            }
            Some(Watched { name, threshold })
        },
        None => None,
    }
}

} // verus!

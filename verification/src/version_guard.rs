//! Which `jsr:` and `npm:` references the version parser of `deno_semver`
//! cannot read without adding one to 18446744073709551615.
//!
//! The parser reads the version requirement of a reference as `~`, `^` or
//! nothing, followed by up to three parts with dots between them; a part is
//! `x`, `X`, `*` or a number. To find where the range of versions ends it
//! adds one to some of the numbers, without a check:
//! - behind `~`, to the second part where it is a number, else to the first;
//! - behind `^`, to the first part; where that is 0 also to the second, if
//!   it is a number; where that is 0 too also to the third, if it is one;
//! - behind nothing, unless all three parts are numbers, to the second part
//!   where it is a number, else to the first.

use vstd::prelude::*;

verus! {

/// A decimal digit.
pub open spec fn is_digit(byte: u8) -> bool {
    0x30 <= byte <= 0x39
}

/// The first place in `[from, to)` that holds `byte`, or `to` where none does.
pub open spec fn index_of(bytes: Seq<u8>, from: int, to: int, byte: u8) -> int
    decreases to - from,
{
    if from >= to {
        to
    } else if bytes[from] == byte {
        from
    } else {
        index_of(bytes, from + 1, to, byte)
    }
}

/// The last place in `[from, to)` that holds `byte`, or `from - 1` where none
/// does.
pub open spec fn last_index_of(bytes: Seq<u8>, from: int, to: int, byte: u8) -> int
    decreases to - from,
{
    if from >= to {
        from - 1
    } else if bytes[to - 1] == byte {
        to - 1
    } else {
        last_index_of(bytes, from, to - 1, byte)
    }
}

/// Where the digits that begin at `from` end, at `to` at the latest.
pub open spec fn digits_end(bytes: Seq<u8>, from: int, to: int) -> int
    decreases to - from,
{
    if from >= to || !is_digit(bytes[from]) {
        from
    } else {
        digits_end(bytes, from + 1, to)
    }
}

/// The digits of 18446744073709551615, the greatest `u64`.
pub open spec fn max_digits() -> Seq<u8> {
    seq![49u8, 56, 52, 52, 54, 55, 52, 52, 48, 55, 51, 55, 48, 57, 53, 53, 49, 54, 49, 53]
}

/// How the 20 digits at `from` compare with those of the greatest `u64`,
/// from the digit `k` on: -1 for less, 0 for the same, 1 for more.
pub open spec fn against_max(bytes: Seq<u8>, from: int, k: int) -> int
    decreases 20 - k,
{
    if k < 0 || k >= 20 {
        0
    } else if bytes[from + k] < max_digits()[k] {
        -1
    } else if bytes[from + k] > max_digits()[k] {
        1
    } else {
        against_max(bytes, from, k + 1)
    }
}

/// What stands where a part of a version is looked for.
#[derive(Clone, Copy, Debug, PartialEq, Eq, Structural)]
pub enum Part {
    /// Nothing that reads as a part.
    Absent,
    /// `x`, `X` or `*`.
    Wildcard,
    /// The number 0.
    Zero,
    /// The number 18446744073709551615.
    Max,
    /// Any other number that is a `u64`.
    Other,
    /// A number greater than any `u64`, at which the parser gives up.
    TooLarge,
}

impl Part {
    /// The part is a number that the parser reads.
    pub open spec fn is_number(self) -> bool {
        self is Zero || self is Max || self is Other
    }

    /// Whether the part is a number that the parser reads.
    pub fn number(&self) -> (number: bool)
        ensures
            number == self.is_number(),
    {
        match self {
            Part::Zero => true,
            Part::Max => true,
            Part::Other => true,
            _ => false,
        }
    }

    /// Whether the part is the greatest `u64`.
    pub fn max(&self) -> (max: bool)
        ensures
            max == (*self is Max),
    {
        match self {
            Part::Max => true,
            _ => false,
        }
    }

    /// Whether the part is the number 0.
    pub fn zero(&self) -> (zero: bool)
        ensures
            zero == (*self is Zero),
    {
        match self {
            Part::Zero => true,
            _ => false,
        }
    }
}

/// The part that is read at `at` in `[at, to)`, and where reading goes on. A
/// 0 is a number by itself; any other number runs as far as its digits do.
pub open spec fn part_at(bytes: Seq<u8>, at: int, to: int) -> (Part, int) {
    if at >= to {
        (Part::Absent, at)
    } else if bytes[at] == 0x78 || bytes[at] == 0x58 || bytes[at] == 0x2a {
        (Part::Wildcard, at + 1)
    } else if bytes[at] == 0x30 {
        (Part::Zero, at + 1)
    } else if is_digit(bytes[at]) {
        let end = digits_end(bytes, at, to);
        (
            if end - at > 20 {
                Part::TooLarge
            } else if end - at == 20 {
                if against_max(bytes, at, 0) == 0 {
                    Part::Max
                } else if against_max(bytes, at, 0) > 0 {
                    Part::TooLarge
                } else {
                    Part::Other
                }
            } else {
                Part::Other
            },
            end,
        )
    } else {
        (Part::Absent, at)
    }
}

/// What a version requirement begins with.
#[derive(Clone, Copy, Debug, PartialEq, Eq, Structural)]
pub enum Operator {
    Tilde,
    Caret,
    Plain,
}

/// Whether the parser adds one to the greatest `u64` for a requirement with
/// this operator and these parts. It adds nothing where the first part is no
/// number, and gives up before adding where a part is too large.
pub open spec fn parts_overflow(operator: Operator, major: Part, minor: Part, patch: Part) -> bool {
    if !major.is_number() || minor is TooLarge || patch is TooLarge {
        false
    } else {
        match operator {
            Operator::Tilde => if minor.is_number() {
                minor is Max
            } else {
                major is Max
            },
            Operator::Caret => major is Max || (major is Zero && minor.is_number() && (minor is Max
                || (minor is Zero && patch is Max))),
            Operator::Plain => if minor.is_number() {
                !patch.is_number() && minor is Max
            } else {
                major is Max
            },
        }
    }
}

/// Whether the parser adds one to the greatest `u64` for the version
/// requirement written in `[from, to)`. The second part is read behind a dot
/// after the first, the third behind a dot after a second that was read.
pub open spec fn requirement_overflows(bytes: Seq<u8>, from: int, to: int) -> bool {
    let operator = if from < to && bytes[from] == 0x7e {
        Operator::Tilde
    } else if from < to && bytes[from] == 0x5e {
        Operator::Caret
    } else {
        Operator::Plain
    };
    let start = if operator is Plain {
        from
    } else {
        from + 1
    };
    let major = part_at(bytes, start, to);
    let minor = if major.1 < to && bytes[major.1] == 0x2e {
        part_at(bytes, major.1 + 1, to)
    } else {
        (Part::Absent, major.1)
    };
    let patch = if !(minor.0 is Absent) && minor.1 < to && bytes[minor.1] == 0x2e {
        part_at(bytes, minor.1 + 1, to)
    } else {
        (Part::Absent, minor.1)
    };
    parts_overflow(operator, major.0, minor.0, patch.0)
}

/// The text begins with `jsr:` or `npm:`.
pub open spec fn has_registry_scheme(bytes: Seq<u8>) -> bool {
    &&& bytes.len() >= 4
    &&& bytes[3] == 0x3a
    &&& ((bytes[0] == 0x6a && bytes[1] == 0x73 && bytes[2] == 0x72) || (bytes[0] == 0x6e
        && bytes[1] == 0x70 && bytes[2] == 0x6d))
}

/// Where the name of the package is written in a reference: behind the
/// scheme and one slash, if there is one, up to the next slash; for a name
/// that begins with `@`, the part behind that slash up to the one after
/// it. Nothing where that name is empty.
pub open spec fn name_bounds(bytes: Seq<u8>) -> Option<(int, int)> {
    let start: int = if bytes.len() > 4 && bytes[4] == 0x2f {
        5
    } else {
        4
    };
    let first_end = index_of(bytes, start, bytes.len() as int, 0x2f);
    if first_end <= start {
        None
    } else if bytes[start] == 0x40 {
        if first_end >= bytes.len() {
            None
        } else {
            let second_end = index_of(bytes, first_end + 1, bytes.len() as int, 0x2f);
            if second_end <= first_end + 1 {
                None
            } else {
                Some((first_end + 1, second_end))
            }
        }
    } else {
        Some((start, first_end))
    }
}

/// Whether `bytes` is a `jsr:` or `npm:` reference for which the parser adds
/// one to the greatest `u64`: one whose package name is followed by `@` and a
/// version requirement that overflows.
pub open spec fn reference_overflows(bytes: Seq<u8>) -> bool {
    has_registry_scheme(bytes) && match name_bounds(bytes) {
        Some((from, to)) => {
            let at = last_index_of(bytes, from, to, 0x40);
            at >= from && requirement_overflows(bytes, at + 1, to)
        },
        None => false,
    }
}

/// The first place in `[from, to)` that holds `byte`, or `to`.
fn find_byte(bytes: &[u8], from: usize, to: usize, byte: u8) -> (at: usize)
    requires
        from <= to <= bytes.len(),
    ensures
        at == index_of(bytes@, from as int, to as int, byte),
        from <= at <= to,
{
    let mut i: usize = from;
    while i < to && bytes[i] != byte
        invariant
            from <= i <= to <= bytes.len(),
            index_of(bytes@, from as int, to as int, byte) == index_of(
                bytes@,
                i as int,
                to as int,
                byte,
            ),
        decreases to - i,
    {
        i += 1;
    }
    i
}

/// The last place in `[from, to)` that holds `byte`, if any does.
fn find_last_byte(bytes: &[u8], from: usize, to: usize, byte: u8) -> (at: Option<usize>)
    requires
        from <= to <= bytes.len(),
    ensures
        match at {
            Some(at) => at == last_index_of(bytes@, from as int, to as int, byte) && from <= at < to,
            None => last_index_of(bytes@, from as int, to as int, byte) == from - 1,
        },
{
    let mut i: usize = to;
    while i > from && bytes[i - 1] != byte
        invariant
            from <= i <= to <= bytes.len(),
            last_index_of(bytes@, from as int, to as int, byte) == last_index_of(
                bytes@,
                from as int,
                i as int,
                byte,
            ),
        decreases i - from,
    {
        i -= 1;
    }
    if i > from {
        Some(i - 1)
    } else {
        None
    }
}

/// Where the digits that begin at `from` end.
fn find_digits_end(bytes: &[u8], from: usize, to: usize) -> (end: usize)
    requires
        from <= to <= bytes.len(),
    ensures
        end == digits_end(bytes@, from as int, to as int),
        from <= end <= to,
{
    let mut i: usize = from;
    while i < to && 0x30 <= bytes[i] && bytes[i] <= 0x39
        invariant
            from <= i <= to <= bytes.len(),
            digits_end(bytes@, from as int, to as int) == digits_end(bytes@, i as int, to as int),
        decreases to - i,
    {
        i += 1;
    }
    i
}

/// The digit `k` of the greatest `u64`.
fn max_digit(k: usize) -> (digit: u8)
    requires
        k < 20,
    ensures
        digit == max_digits()[k as int],
{
    match k {
        0 => 49,
        1 => 56,
        2 => 52,
        3 => 52,
        4 => 54,
        5 => 55,
        6 => 52,
        7 => 52,
        8 => 48,
        9 => 55,
        10 => 51,
        11 => 55,
        12 => 48,
        13 => 57,
        14 => 53,
        15 => 53,
        16 => 49,
        17 => 54,
        18 => 49,
        _ => 53,
    }
}

/// How the 20 digits at `from` compare with those of the greatest `u64`.
fn compare_with_max(bytes: &[u8], from: usize) -> (order: i8)
    requires
        from + 20 <= bytes.len(),
    ensures
        order == against_max(bytes@, from as int, 0),
{
    let mut k: usize = 0;
    while k < 20
        invariant
            k <= 20,
            from + 20 <= bytes.len(),
            against_max(bytes@, from as int, 0) == against_max(bytes@, from as int, k as int),
        decreases 20 - k,
    {
        let digit: u8 = max_digit(k);
        if bytes[from + k] < digit {
            return -1;
        }
        if bytes[from + k] > digit {
            return 1;
        }
        k += 1;
    }
    0
}

/// Reads the part at `at`.
fn read_part(bytes: &[u8], at: usize, to: usize) -> (read: (Part, usize))
    requires
        at <= to <= bytes.len(),
    ensures
        read.0 == part_at(bytes@, at as int, to as int).0,
        read.1 == part_at(bytes@, at as int, to as int).1,
        at <= read.1 <= to,
{
    if at >= to {
        return (Part::Absent, at);
    }
    let first: u8 = bytes[at];
    if first == 0x78 || first == 0x58 || first == 0x2a {
        (Part::Wildcard, at + 1)
    } else if first == 0x30 {
        (Part::Zero, at + 1)
    } else if 0x30 <= first && first <= 0x39 {
        let end: usize = find_digits_end(bytes, at, to);
        let part = if end - at > 20 {
            Part::TooLarge
        } else if end - at == 20 {
            let order: i8 = compare_with_max(bytes, at);
            if order == 0 {
                Part::Max
            } else if order > 0 {
                Part::TooLarge
            } else {
                Part::Other
            }
        } else {
            Part::Other
        };
        (part, end)
    } else {
        (Part::Absent, at)
    }
}

/// Whether the parser adds one to the greatest `u64` for a requirement with
/// this operator and these parts.
pub fn do_parts_overflow(operator: Operator, major: Part, minor: Part, patch: Part) -> (overflow:
    bool)
    ensures
        overflow == parts_overflow(operator, major, minor, patch),
{
    if !major.number() || matches!(minor, Part::TooLarge) || matches!(patch, Part::TooLarge) {
        return false;
    }
    match operator {
        Operator::Tilde => {
            if minor.number() {
                minor.max()
            } else {
                major.max()
            }
        },
        Operator::Caret => major.max() || (major.zero() && minor.number() && (minor.max() || (
        minor.zero() && patch.max()))),
        Operator::Plain => {
            if minor.number() {
                !patch.number() && minor.max()
            } else {
                major.max()
            }
        },
    }
}

/// Whether the parser adds one to the greatest `u64` for the version
/// requirement written in `[from, to)`.
fn does_requirement_overflow(bytes: &[u8], from: usize, to: usize) -> (overflow: bool)
    requires
        from <= to <= bytes.len(),
    ensures
        overflow == requirement_overflows(bytes@, from as int, to as int),
{
    let operator = if from < to && bytes[from] == 0x7e {
        Operator::Tilde
    } else if from < to && bytes[from] == 0x5e {
        Operator::Caret
    } else {
        Operator::Plain
    };
    let start: usize = match operator {
        Operator::Plain => from,
        _ => from + 1,
    };
    let major = read_part(bytes, start, to);
    let minor = if major.1 < to && bytes[major.1] == 0x2e {
        read_part(bytes, major.1 + 1, to)
    } else {
        (Part::Absent, major.1)
    };
    let patch = if !matches!(minor.0, Part::Absent) && minor.1 < to && bytes[minor.1] == 0x2e {
        read_part(bytes, minor.1 + 1, to)
    } else {
        (Part::Absent, minor.1)
    };
    do_parts_overflow(operator, major.0, minor.0, patch.0)
}

/// Where the name of the package is written in a reference.
fn find_name(bytes: &[u8]) -> (bounds: Option<(usize, usize)>)
    requires
        bytes.len() >= 4,
    ensures
        match bounds {
            Some((from, to)) => name_bounds(bytes@) == Some((from as int, to as int)) && from <= to
                <= bytes.len(),
            None => name_bounds(bytes@) is None,
        },
{
    let len: usize = bytes.len();
    let start: usize = if len > 4 && bytes[4] == 0x2f {
        5
    } else {
        4
    };
    let first_end: usize = find_byte(bytes, start, len, 0x2f);
    if first_end <= start {
        None
    } else if bytes[start] == 0x40 {
        if first_end >= len {
            None
        } else {
            let second_end: usize = find_byte(bytes, first_end + 1, len, 0x2f);
            if second_end <= first_end + 1 {
                None
            } else {
                Some((first_end + 1, second_end))
            }
        }
    } else {
        Some((start, first_end))
    }
}

/// Whether `bytes` is a `jsr:` or `npm:` reference for which the parser adds
/// one to the greatest `u64`.
pub fn does_reference_overflow(bytes: &[u8]) -> (overflow: bool)
    ensures
        overflow == reference_overflows(bytes@),
{
    if bytes.len() < 4 || bytes[3] != 0x3a {
        return false;
    }
    let jsr: bool = bytes[0] == 0x6a && bytes[1] == 0x73 && bytes[2] == 0x72;
    let npm: bool = bytes[0] == 0x6e && bytes[1] == 0x70 && bytes[2] == 0x6d;
    if !jsr && !npm {
        return false;
    }
    match find_name(bytes) {
        Some((from, to)) => match find_last_byte(bytes, from, to, 0x40) {
            Some(at) => does_requirement_overflow(bytes, at + 1, to),
            None => false,
        },
        None => false,
    }
}

} // verus!

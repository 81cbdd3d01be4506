//! IP addresses and their text literals: dotted decimal for version 4,
//! colon-separated hexadecimal groups for version 6.

use vstd::prelude::*;
use crate::text::chars_of;

verus! {

/// An IP address of either version.
#[derive(Debug, Clone, Copy, PartialEq, Eq, Structural)]
pub enum IpAddress {
    /// The four octets of a version 4 address, first to last.
    V4(u8, u8, u8, u8),
    /// The eight 16-bit groups of a version 6 address, first to last.
    V6(u16, u16, u16, u16, u16, u16, u16, u16),
}

/// The base in which digits are read: sixteen or ten.
pub open spec fn radix(hex: bool) -> int {
    if hex {
        16
    } else {
        10
    }
}

/// The value of a digit, if the character is one. Hexadecimal digits are
/// taken in either letter case.
pub open spec fn digit_value(c: char, hex: bool) -> Option<int> {
    if '0' <= c && c <= '9' {
        Some(c as int - '0' as int)
    } else if hex && 'a' <= c && c <= 'f' {
        Some(c as int - 'a' as int + 10)
    } else if hex && 'A' <= c && c <= 'F' {
        Some(c as int - 'A' as int + 10)
    } else {
        None
    }
}

/// Whether a digit stands at position `at` of the text.
pub open spec fn digit_at(text: Seq<char>, at: int, hex: bool) -> bool {
    0 <= at < text.len() && digit_value(text[at], hex) is Some
}

/// How many digits stand in a row from position `at` on.
pub open spec fn digit_run(text: Seq<char>, at: int, hex: bool) -> nat
    decreases text.len() - at,
{
    if digit_at(text, at, hex) {
        1 + digit_run(text, at + 1, hex)
    } else {
        0
    }
}

/// The number that the `count` digits from position `at` on spell.
pub open spec fn digits_value(text: Seq<char>, at: int, count: nat, hex: bool) -> int
    decreases count,
{
    if count == 0 {
        0
    } else {
        digits_value(text, at, (count - 1) as nat, hex) * radix(hex) + digit_value(
            text[at + count - 1],
            hex,
        ).unwrap()
    }
}

/// Reads one octet in decimal: one to three digits, no leading zero before
/// another digit, at most 255. Gives the octet and the position behind it.
pub open spec fn read_octet(text: Seq<char>, at: int) -> Option<(u8, int)> {
    let count = digit_run(text, at, false);
    let value = digits_value(text, at, count, false);
    if count == 0 || count > 3 || (count > 1 && text[at] == '0') || value > 255 {
        None
    } else {
        Some((value as u8, at + count))
    }
}

/// Reads one group in hexadecimal: one to four digits. Gives the group and
/// the position behind it.
pub open spec fn read_group(text: Seq<char>, at: int) -> Option<(u16, int)> {
    let count = digit_run(text, at, true);
    if count == 0 || count > 4 {
        None
    } else {
        Some((digits_value(text, at, count, true) as u16, at + count))
    }
}

/// Steps over the character `c` at position `at`, if it stands there.
pub open spec fn read_char(text: Seq<char>, at: int, c: char) -> Option<int> {
    if 0 <= at < text.len() && text[at] == c {
        Some(at + 1)
    } else {
        None
    }
}

/// Where the item with the given index starts: the first one at once, each
/// later one behind a separator.
pub open spec fn read_separator(text: Seq<char>, at: int, index: nat, c: char) -> Option<int> {
    if index == 0 {
        Some(at)
    } else {
        read_char(text, at, c)
    }
}

/// Reads the octets of a dotted quad from the one with the given index on.
pub open spec fn read_octets(text: Seq<char>, at: int, index: nat) -> Option<(Seq<u8>, int)>
    decreases 4 - index,
{
    if index >= 4 {
        Some((Seq::empty(), at))
    } else {
        match read_separator(text, at, index, '.') {
            None => None,
            Some(start) => match read_octet(text, start) {
                None => None,
                Some((octet, next)) => match read_octets(text, next, index + 1) {
                    None => None,
                    Some((rest, end)) => Some((seq![octet] + rest, end)),
                },
            },
        }
    }
}

/// Reads a version 4 literal: four octets separated by dots.
pub open spec fn read_v4(text: Seq<char>, at: int) -> Option<(Seq<u8>, int)> {
    read_octets(text, at, 0)
}

/// The 16-bit group that two octets form, the first being the high one.
pub open spec fn group_of(high: u8, low: u8) -> u16 {
    (high as int * 256 + low as int) as u16
}

/// What reading a run of groups gives.
pub struct GroupRun {
    /// The groups read, in order.
    pub groups: Seq<u16>,
    /// Whether the run ended in a dotted quad.
    pub dotted: bool,
    /// The position behind the run.
    pub end: int,
}

/// Reads groups separated by colons until `limit` groups are there or no
/// further group follows. Where at least two groups are still missing a
/// dotted quad may stand for the next two, and ends the run.
pub open spec fn read_groups(text: Seq<char>, at: int, index: nat, limit: nat) -> GroupRun
    decreases limit - index,
{
    if index >= limit {
        GroupRun { groups: Seq::empty(), dotted: false, end: at }
    } else {
        let quad = if index + 1 < limit {
            match read_separator(text, at, index, ':') {
                None => None,
                Some(start) => read_v4(text, start),
            }
        } else {
            None
        };
        match quad {
            Some((octets, end)) => GroupRun {
                groups: seq![group_of(octets[0], octets[1]), group_of(octets[2], octets[3])],
                dotted: true,
                end,
            },
            None => {
                let group = match read_separator(text, at, index, ':') {
                    None => None,
                    Some(start) => read_group(text, start),
                };
                match group {
                    None => GroupRun { groups: Seq::empty(), dotted: false, end: at },
                    Some((g, next)) => {
                        let rest = read_groups(text, next, index + 1, limit);
                        GroupRun { groups: seq![g] + rest.groups, dotted: rest.dotted, end: rest.end }
                    },
                }
            },
        }
    }
}

/// Reads a version 6 literal: eight groups, or fewer with one `::` that
/// stands for the missing groups, at least one, all of them zero.
pub open spec fn read_v6(text: Seq<char>, at: int) -> Option<(Seq<u16>, int)> {
    let head = read_groups(text, at, 0, 8);
    if head.groups.len() == 8 {
        Some((head.groups, head.end))
    } else if head.dotted {
        None
    } else {
        match read_char(text, head.end, ':') {
            None => None,
            Some(second) => match read_char(text, second, ':') {
                None => None,
                Some(start) => {
                    let tail = read_groups(text, start, 0, (7 - head.groups.len()) as nat);
                    let gap = (8 - head.groups.len() - tail.groups.len()) as nat;
                    Some((head.groups + Seq::new(gap, |i: int| 0u16) + tail.groups, tail.end))
                },
            },
        }
    }
}

/// Indicates a text that is no IP address literal.
#[derive(Debug, PartialEq, Eq, Structural)]
pub struct IpAddressDecodeError;

/// The value of a digit character.
fn digit_of(c: char, hex: bool) -> (d: Option<u32>)
    ensures
        match d {
            Some(v) => digit_value(c, hex) == Some(v as int) && v < radix(hex),
            None => digit_value(c, hex) is None,
        },
{
    let code = c as u32;
    if 48 <= code && code <= 57 {
        Some(code - 48)
    } else if hex && 97 <= code && code <= 102 {
        Some(code - 87)
    } else if hex && 65 <= code && code <= 70 {
        Some(code - 55)
    } else {
        None
    }
}

/// Counts the digits that stand in a row from `at` on, up to one more than
/// `most`, and computes the number that the first `most` of them spell.
fn scan_digits(chars: &Vec<char>, at: usize, hex: bool, most: usize) -> (r: (u32, usize))
    requires
        at <= chars.len(),
        most <= 4,
    ensures
        r.1 <= most + 1,
        r.1 <= most ==> r.1 == digit_run(chars@, at as int, hex) && r.0 == digits_value(
            chars@,
            at as int,
            r.1 as nat,
            hex,
        ) && at + r.1 <= chars.len(),
        r.1 == most + 1 ==> digit_run(chars@, at as int, hex) > most,
        r.0 <= 0xffff,
{
    let base: u32 = if hex {
        16
    } else {
        10
    };
    let mut value: u32 = 0;
    let mut count: usize = 0;
    let mut more = true;
    while more
        invariant
            at <= chars.len(),
            most <= 4,
            base == radix(hex),
            count <= most + 1,
            more ==> count <= most,
            at + count <= chars.len() || count == most + 1,
            digit_run(chars@, at as int, hex) == count + digit_run(chars@, at + count, hex),
            !more && count <= most ==> digit_run(chars@, at + count, hex) == 0,
            count <= most ==> value == digits_value(chars@, at as int, count as nat, hex),
            count == 0 ==> value == 0,
            count == 1 ==> value < 0x10,
            count == 2 ==> value < 0x100,
            count == 3 ==> value < 0x1000,
            count >= 4 ==> value < 0x10000,
        decreases (if more { 1int } else { 0int }), most + 1 - count,
    {
        if count >= chars.len() - at {
            more = false;
        } else {
            match digit_of(chars[at + count], hex) {
                None => {
                    more = false;
                },
                Some(digit) => {
                    if count == most {
                        more = false;
                    } else {
                        value = value * base + digit;
                    }
                    count = count + 1;
                },
            }
        }
    }
    (value, count)
}

/// Reads one octet at `at`.
fn parse_octet(chars: &Vec<char>, at: usize) -> (r: Option<(u8, usize)>)
    requires
        at <= chars.len(),
    ensures
        match r {
            Some((octet, next)) => read_octet(chars@, at as int) == Some((octet, next as int))
                && next <= chars.len(),
            None => read_octet(chars@, at as int) is None,
        },
{
    let (value, count) = scan_digits(chars, at, false, 3);
    if count == 0 || count > 3 || (count > 1 && chars[at] == '0') || value > 255 {
        None
    } else {
        Some((value as u8, at + count))
    }
}

/// Reads one group at `at`.
fn parse_group(chars: &Vec<char>, at: usize) -> (r: Option<(u16, usize)>)
    requires
        at <= chars.len(),
    ensures
        match r {
            Some((group, next)) => read_group(chars@, at as int) == Some((group, next as int))
                && next <= chars.len(),
            None => read_group(chars@, at as int) is None,
        },
{
    let (value, count) = scan_digits(chars, at, true, 4);
    if count == 0 || count > 4 {
        None
    } else {
        Some((value as u16, at + count))
    }
}

/// Finds where the item with the given index starts.
fn parse_separator(chars: &Vec<char>, at: usize, index: usize, c: char) -> (r: Option<usize>)
    requires
        at <= chars.len(),
    ensures
        match r {
            Some(next) => read_separator(chars@, at as int, index as nat, c) == Some(next as int)
                && next <= chars.len(),
            None => read_separator(chars@, at as int, index as nat, c) is None,
        },
{
    if index == 0 {
        Some(at)
    } else if at < chars.len() && chars[at] == c {
        Some(at + 1)
    } else {
        None
    }
}

/// Reads a dotted quad at `at`.
fn parse_v4(chars: &Vec<char>, at: usize) -> (r: Option<((u8, u8, u8, u8), usize)>)
    requires
        at <= chars.len(),
    ensures
        match r {
            Some((o, next)) => read_v4(chars@, at as int) == Some(
                (seq![o.0, o.1, o.2, o.3], next as int),
            ) && next <= chars.len(),
            None => read_v4(chars@, at as int) is None,
        },
{
    proof {
        reveal_with_fuel(read_octets, 5);
    }
    let (a, after_a) = match parse_octet(chars, at) {
        Some(read) => read,
        None => return None,
    };
    let at_b = match parse_separator(chars, after_a, 1, '.') {
        Some(next) => next,
        None => return None,
    };
    let (b, after_b) = match parse_octet(chars, at_b) {
        Some(read) => read,
        None => return None,
    };
    let at_c = match parse_separator(chars, after_b, 2, '.') {
        Some(next) => next,
        None => return None,
    };
    let (c, after_c) = match parse_octet(chars, at_c) {
        Some(read) => read,
        None => return None,
    };
    let at_d = match parse_separator(chars, after_c, 3, '.') {
        Some(next) => next,
        None => return None,
    };
    let (d, end) = match parse_octet(chars, at_d) {
        Some(read) => read,
        None => return None,
    };
    assert(seq![a] + (seq![b] + (seq![c] + (seq![d] + Seq::<u8>::empty()))) =~= seq![a, b, c, d]);
    Some(((a, b, c, d), end))
}

/// The 16-bit group of two octets.
fn join_octets(high: u8, low: u8) -> (group: u16)
    ensures
        group == group_of(high, low),
{
    let wide: u16 = high as u16;
    wide * 256 + low as u16
}

/// Reads a run of at most `limit` groups at `at`.
fn parse_groups(chars: &Vec<char>, at: usize, limit: usize) -> (r: (Vec<u16>, bool, usize))
    requires
        at <= chars.len(),
        limit <= 8,
    ensures
        r.0@ == read_groups(chars@, at as int, 0, limit as nat).groups,
        r.1 == read_groups(chars@, at as int, 0, limit as nat).dotted,
        r.2 == read_groups(chars@, at as int, 0, limit as nat).end,
        r.0.len() <= limit,
        r.2 <= chars.len(),
{
    let ghost whole = read_groups(chars@, at as int, 0, limit as nat);
    let mut groups: Vec<u16> = Vec::new();
    let mut dotted = false;
    let mut pos = at;
    let mut index: usize = 0;
    let mut more = true;
    while more && index < limit
        invariant
            limit <= 8,
            pos <= chars.len(),
            index <= limit,
            !dotted ==> groups.len() == index,
            groups.len() <= limit,
            whole == read_groups(chars@, at as int, 0, limit as nat),
            more ==> !dotted && whole.groups == groups@ + read_groups(
                chars@,
                pos as int,
                index as nat,
                limit as nat,
            ).groups,
            more ==> whole.dotted == read_groups(chars@, pos as int, index as nat, limit as nat).dotted,
            more ==> whole.end == read_groups(chars@, pos as int, index as nat, limit as nat).end,
            !more ==> whole.groups == groups@ && whole.dotted == dotted && whole.end == pos,
        decreases (if more { 1int } else { 0int }), limit - index,
    {
        let quad = if index + 1 < limit {
            match parse_separator(chars, pos, index, ':') {
                Some(start) => parse_v4(chars, start),
                None => None,
            }
        } else {
            None
        };
        match quad {
            Some((o, end)) => {
                groups.push(join_octets(o.0, o.1));
                groups.push(join_octets(o.2, o.3));
                dotted = true;
                pos = end;
                more = false;
                assert(whole.groups =~= groups@);
            },
            None => {
                let group = match parse_separator(chars, pos, index, ':') {
                    Some(start) => parse_group(chars, start),
                    None => None,
                };
                match group {
                    None => {
                        more = false;
                        assert(whole.groups =~= groups@);
                    },
                    Some((g, next)) => {
                        groups.push(g);
                        pos = next;
                        index = index + 1;
                        assert(whole.groups =~= groups@ + read_groups(
                            chars@,
                            pos as int,
                            index as nat,
                            limit as nat,
                        ).groups);
                    },
                }
            },
        }
    }
    proof {
        if more {
            assert(whole.groups =~= groups@);
        }
    }
    (groups, dotted, pos)
}

/// Reads a version 6 literal at `at`.
fn parse_v6(chars: &Vec<char>, at: usize) -> (r: Option<(Vec<u16>, usize)>)
    requires
        at <= chars.len(),
    ensures
        match r {
            Some((groups, next)) => read_v6(chars@, at as int) == Some((groups@, next as int))
                && groups.len() == 8 && next <= chars.len(),
            None => read_v6(chars@, at as int) is None,
        },
{
    let (mut groups, dotted, head_end) = parse_groups(chars, at, 8);
    if groups.len() == 8 {
        return Some((groups, head_end));
    }
    if dotted {
        return None;
    }
    let second = match parse_separator(chars, head_end, 1, ':') {
        Some(next) => next,
        None => return None,
    };
    let start = match parse_separator(chars, second, 1, ':') {
        Some(next) => next,
        None => return None,
    };
    let ghost head = groups@;
    let (tail, _, end) = parse_groups(chars, start, 7 - groups.len());
    let gap = 8 - groups.len() - tail.len();
    let mut i: usize = 0;
    while i < gap
        invariant
            i <= gap,
            gap + head.len() + tail.len() == 8,
            groups@ == head + Seq::new(i as nat, |k: int| 0u16),
        decreases gap - i,
    {
        groups.push(0);
        i = i + 1;
    }
    let ghost spread = groups@;
    let mut j: usize = 0;
    while j < tail.len()
        invariant
            j <= tail.len(),
            spread.len() + tail.len() == 8,
            groups@ == spread + tail@.take(j as int),
        decreases tail.len() - j,
    {
        groups.push(tail[j]);
        j = j + 1;
    }
    assert(tail@.take(tail.len() as int) =~= tail@);
    Some((groups, end))
}

impl IpAddress {
    /// Reads an address off its text literal: a dotted quad, or colon
    /// separated hexadecimal groups. The whole text must be the literal.
    pub fn parse(text: &str) -> (r: Result<IpAddress, IpAddressDecodeError>)
        ensures
            match r {
                Ok(address) => IpAddress::of_text(text@) == Some(address),
                Err(_) => IpAddress::of_text(text@) is None,
            },
    {
        let chars = chars_of(text);
        match parse_v4(&chars, 0) {
            Some((o, end)) => {
                if end == chars.len() {
                    Ok(IpAddress::V4(o.0, o.1, o.2, o.3))
                } else {
                    Err(IpAddressDecodeError)
                }
            },
            None => match parse_v6(&chars, 0) {
                Some((g, end)) => {
                    if end == chars.len() {
                        Ok(IpAddress::V6(g[0], g[1], g[2], g[3], g[4], g[5], g[6], g[7]))
                    } else {
                        Err(IpAddressDecodeError)
                    }
                },
                None => Err(IpAddressDecodeError),
            },
        }
    }

    /// The address that a text literal denotes, if it is one. The whole text
    /// must be the literal.
    pub open spec fn of_text(text: Seq<char>) -> Option<IpAddress> {
        match read_v4(text, 0) {
            Some((o, end)) => if end == text.len() {
                Some(IpAddress::V4(o[0], o[1], o[2], o[3]))
            } else {
                None
            },
            None => match read_v6(text, 0) {
                Some((g, end)) => if end == text.len() {
                    Some(IpAddress::V6(g[0], g[1], g[2], g[3], g[4], g[5], g[6], g[7]))
                } else {
                    None
                },
                None => None,
            },
        }
    }
}

} // verus!

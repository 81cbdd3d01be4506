//! The text form in which an IP address is written, and the proof that it
//! reads back as the same address.

use vstd::prelude::*;
use vstd::string::*;
use crate::ip::{IpAddress, digit_at, digit_run, digit_value, digits_value, group_of, read_char, read_group, read_groups, read_octet, read_octets, read_separator, read_v4, read_v6};

verus! {

/// The character of a digit below sixteen, letters in lower case.
pub open spec fn digit_char(d: int) -> char {
    if d < 10 {
        (d + 48) as char
    } else {
        (d + 87) as char
    }
}

/// An octet in decimal, without leading zeros.
pub open spec fn octet_text(octet: u8) -> Seq<char> {
    let o = octet as int;
    if o < 10 {
        seq![digit_char(o)]
    } else if o < 100 {
        seq![digit_char(o / 10), digit_char(o % 10)]
    } else {
        seq![digit_char(o / 100), digit_char(o / 10 % 10), digit_char(o % 10)]
    }
}

/// A group in lower case hexadecimal, without leading zeros.
pub open spec fn group_text(group: u16) -> Seq<char> {
    let g = group as int;
    if g < 0x10 {
        seq![digit_char(g)]
    } else if g < 0x100 {
        seq![digit_char(g / 0x10), digit_char(g % 0x10)]
    } else if g < 0x1000 {
        seq![digit_char(g / 0x100), digit_char(g / 0x10 % 0x10), digit_char(g % 0x10)]
    } else {
        seq![
            digit_char(g / 0x1000),
            digit_char(g / 0x100 % 0x10),
            digit_char(g / 0x10 % 0x10),
            digit_char(g % 0x10),
        ]
    }
}

/// Four octets as a dotted quad.
pub open spec fn quad_text(a: u8, b: u8, c: u8, d: u8) -> Seq<char> {
    octet_text(a) + seq!['.'] + octet_text(b) + seq!['.'] + octet_text(c) + seq!['.']
        + octet_text(d)
}

/// Groups separated by colons.
pub open spec fn groups_text(groups: Seq<u16>) -> Seq<char> {
    if groups.len() == 0 {
        Seq::empty()
    } else {
        group_text(groups[0]) + more_groups_text(groups.drop_first())
    }
}

/// Groups written each behind a colon.
pub open spec fn more_groups_text(groups: Seq<u16>) -> Seq<char>
    decreases groups.len(),
{
    if groups.len() == 0 {
        Seq::empty()
    } else {
        seq![':'] + group_text(groups[0]) + more_groups_text(groups.drop_first())
    }
}

/// Writing one more group adds a colon and the group.
proof fn lemma_more_groups_push(groups: Seq<u16>, g: u16)
    ensures
        more_groups_text(groups.push(g)) == more_groups_text(groups) + seq![':'] + group_text(g),
    decreases groups.len(),
{
    if groups.len() == 0 {
        assert(groups.push(g).drop_first() =~= Seq::<u16>::empty());
        assert(more_groups_text(groups.push(g).drop_first()) =~= Seq::<char>::empty());
        assert(more_groups_text(groups) =~= Seq::<char>::empty());
        assert(more_groups_text(groups.push(g)) =~= more_groups_text(groups) + seq![':']
            + group_text(g));
    } else {
        assert(groups.push(g).drop_first() =~= groups.drop_first().push(g));
        lemma_more_groups_push(groups.drop_first(), g);
        assert(more_groups_text(groups.push(g)) =~= more_groups_text(groups) + seq![':']
            + group_text(g));
    }
}

/// Writing one more group behind others adds a colon and the group; the
/// first group stands alone.
proof fn lemma_groups_push(groups: Seq<u16>, g: u16)
    ensures
        groups_text(groups.push(g)) == if groups.len() == 0 {
            group_text(g)
        } else {
            groups_text(groups) + seq![':'] + group_text(g)
        },
{
    if groups.len() == 0 {
        assert(groups.push(g).drop_first() =~= Seq::<u16>::empty());
        assert(more_groups_text(groups.push(g).drop_first()) =~= Seq::<char>::empty());
        assert(groups_text(groups.push(g)) =~= group_text(g));
    } else {
        assert(groups.push(g).drop_first() =~= groups.drop_first().push(g));
        lemma_more_groups_push(groups.drop_first(), g);
        assert(groups_text(groups.push(g)) =~= groups_text(groups) + seq![':'] + group_text(g));
    }
}

/// Whether zeros alone stand in the `len` groups from `start` on.
pub open spec fn zeros_at(groups: Seq<u16>, start: int, len: int) -> bool {
    0 <= start && 0 <= len && start + len <= groups.len() && forall|i: int|
        start <= i < start + len ==> groups[i] == 0
}

/// A stretch of groups.
pub struct Span {
    pub start: int,
    pub len: int,
}

/// What a scan for zero groups knows after some groups: the longest stretch
/// of zeros so far, and the stretch of zeros that the last group ends.
pub struct ZeroScan {
    pub longest: Span,
    pub current: Span,
}

/// Scans the first `upto` groups for stretches of zeros. Of two stretches
/// of the same length the earlier one is kept as the longest.
pub open spec fn scan_zeros(groups: Seq<u16>, upto: nat) -> ZeroScan
    decreases upto,
{
    if upto == 0 {
        ZeroScan { longest: Span { start: 0, len: 0 }, current: Span { start: 0, len: 0 } }
    } else {
        let before = scan_zeros(groups, (upto - 1) as nat);
        if groups[upto - 1] == 0 {
            let current = Span {
                start: if before.current.len == 0 {
                    upto - 1
                } else {
                    before.current.start
                },
                len: before.current.len + 1,
            };
            ZeroScan {
                longest: if current.len > before.longest.len {
                    current
                } else {
                    before.longest
                },
                current,
            }
        } else {
            ZeroScan { longest: before.longest, current: Span { start: 0, len: 0 } }
        }
    }
}

/// The first of the longest stretches of zero groups.
pub open spec fn longest_zeros(groups: Seq<u16>) -> Span {
    scan_zeros(groups, groups.len()).longest
}

/// Whether eight groups hold a version 4 address mapped into version 6:
/// five zero groups, then `ffff`.
pub open spec fn is_mapped(groups: Seq<u16>) -> bool {
    groups[0] == 0 && groups[1] == 0 && groups[2] == 0 && groups[3] == 0 && groups[4] == 0
        && groups[5] == 0xffff
}

/// The high octet of a group.
pub open spec fn high_octet(g: u16) -> u8 {
    (g / 256) as u8
}

/// The low octet of a group.
pub open spec fn low_octet(g: u16) -> u8 {
    (g % 256) as u8
}

/// Eight groups as a version 6 literal. A mapped version 4 address is
/// written as `::ffff:` and a dotted quad. Otherwise the first of the longest
/// stretches of two or more zero groups is written as `::`.
pub open spec fn v6_text(groups: Seq<u16>) -> Seq<char> {
    if is_mapped(groups) {
        seq![':', ':', 'f', 'f', 'f', 'f', ':'] + quad_text(
            high_octet(groups[6]),
            low_octet(groups[6]),
            high_octet(groups[7]),
            low_octet(groups[7]),
        )
    } else {
        let zeros = longest_zeros(groups);
        if zeros.len > 1 {
            groups_text(groups.take(zeros.start)) + seq![':', ':'] + groups_text(
                groups.skip(zeros.start + zeros.len),
            )
        } else {
            groups_text(groups)
        }
    }
}

/// The text of one digit below sixteen.
fn digit_text(d: u16) -> (text: &'static str)
    requires
        d < 16,
    ensures
        text@ == seq![digit_char(d as int)],
{
    proof {
        reveal_strlit("0");
        reveal_strlit("1");
        reveal_strlit("2");
        reveal_strlit("3");
        reveal_strlit("4");
        reveal_strlit("5");
        reveal_strlit("6");
        reveal_strlit("7");
        reveal_strlit("8");
        reveal_strlit("9");
        reveal_strlit("a");
        reveal_strlit("b");
        reveal_strlit("c");
        reveal_strlit("d");
        reveal_strlit("e");
        reveal_strlit("f");
    }
    let text = match d {
        0 => "0",
        1 => "1",
        2 => "2",
        3 => "3",
        4 => "4",
        5 => "5",
        6 => "6",
        7 => "7",
        8 => "8",
        9 => "9",
        10 => "a",
        11 => "b",
        12 => "c",
        13 => "d",
        14 => "e",
        _ => "f",
    };
    assert(text@ =~= seq![digit_char(d as int)]);
    text
}

/// Writes an octet in decimal behind `out`.
fn push_octet(out: &mut String, octet: u8)
    ensures
        final(out)@ == old(out)@ + octet_text(octet),
{
    let o = octet as u16;
    if o >= 100 {
        out.append(digit_text(o / 100));
    }
    if o >= 10 {
        out.append(digit_text(o / 10 % 10));
    }
    out.append(digit_text(o % 10));
    assert(out@ =~= old(out)@ + octet_text(octet));
}

/// Writes a group in hexadecimal behind `out`.
fn push_group(out: &mut String, g: u16)
    ensures
        final(out)@ == old(out)@ + group_text(g),
{
    if g >= 0x1000 {
        out.append(digit_text(g / 0x1000));
    }
    if g >= 0x100 {
        out.append(digit_text(g / 0x100 % 0x10));
    }
    if g >= 0x10 {
        out.append(digit_text(g / 0x10 % 0x10));
    }
    out.append(digit_text(g % 0x10));
    assert(out@ =~= old(out)@ + group_text(g));
}

/// Writes a dotted quad behind `out`.
fn push_quad(out: &mut String, a: u8, b: u8, c: u8, d: u8)
    ensures
        final(out)@ == old(out)@ + quad_text(a, b, c, d),
{
    proof {
        reveal_strlit(".");
    }
    push_octet(out, a);
    out.append(".");
    push_octet(out, b);
    out.append(".");
    push_octet(out, c);
    out.append(".");
    push_octet(out, d);
    assert("."@ =~= seq!['.']);
    assert(out@ =~= old(out)@ + quad_text(a, b, c, d));
}

/// Writes the groups from `from` up to `to`, separated by colons, behind
/// `out`.
fn push_groups(out: &mut String, groups: &Vec<u16>, from: usize, to: usize)
    requires
        from <= to <= groups.len(),
    ensures
        final(out)@ == old(out)@ + groups_text(groups@.subrange(from as int, to as int)),
{
    proof {
        reveal_strlit(":");
    }
    let mut i = from;
    while i < to
        invariant
            from <= i <= to <= groups.len(),
            ":"@ == seq![':'],
            out@ == old(out)@ + groups_text(groups@.subrange(from as int, i as int)),
        decreases to - i,
    {
        let ghost done = groups@.subrange(from as int, i as int);
        let ghost next = groups@.subrange(from as int, i + 1);
        proof {
            assert(next =~= done.push(groups@[i as int]));
            lemma_groups_push(done, groups@[i as int]);
        }
        if i > from {
            out.append(":");
        }
        push_group(out, groups[i]);
        i = i + 1;
        assert(out@ =~= old(out)@ + groups_text(next));
    }
}

/// Finds the first of the longest stretches of zero groups.
fn find_zeros(groups: &Vec<u16>) -> (r: (usize, usize))
    requires
        groups.len() == 8,
    ensures
        r.0 == longest_zeros(groups@).start,
        r.1 == longest_zeros(groups@).len,
        r.0 + r.1 <= 8,
{
    let mut longest_start: usize = 0;
    let mut longest_len: usize = 0;
    let mut current_start: usize = 0;
    let mut current_len: usize = 0;
    let mut i: usize = 0;
    while i < 8
        invariant
            i <= 8,
            groups.len() == 8,
            longest_start == scan_zeros(groups@, i as nat).longest.start,
            longest_len == scan_zeros(groups@, i as nat).longest.len,
            current_start == scan_zeros(groups@, i as nat).current.start,
            current_len == scan_zeros(groups@, i as nat).current.len,
            longest_start + longest_len <= i,
            current_len > 0 ==> current_start + current_len == i,
            current_len <= i,
        decreases 8 - i,
    {
        if groups[i] == 0 {
            if current_len == 0 {
                current_start = i;
            }
            current_len = current_len + 1;
            if current_len > longest_len {
                longest_start = current_start;
                longest_len = current_len;
            }
        } else {
            current_start = 0;
            current_len = 0;
        }
        i = i + 1;
    }
    (longest_start, longest_len)
}

impl IpAddress {
    /// Writes the address as its text literal.
    pub fn to_text(&self) -> (text: String)
        ensures
            text@ == self.literal(),
    {
        let mut out = String::new();
        match *self {
            IpAddress::V4(a, b, c, d) => {
                push_quad(&mut out, a, b, c, d);
            },
            IpAddress::V6(a, b, c, d, e, f, g, h) => {
                let groups: Vec<u16> = vec![a, b, c, d, e, f, g, h];
                assert(groups@ =~= self.groups());
                if a == 0 && b == 0 && c == 0 && d == 0 && e == 0 && f == 0xffff {
                    proof {
                        reveal_strlit("::ffff:");
                    }
                    out.append("::ffff:");
                    assert("::ffff:"@ =~= seq![':', ':', 'f', 'f', 'f', 'f', ':']);
                    push_quad(
                        &mut out,
                        (g / 256) as u8,
                        (g % 256) as u8,
                        (h / 256) as u8,
                        (h % 256) as u8,
                    );
                } else {
                    let (start, len) = find_zeros(&groups);
                    if len > 1 {
                        proof {
                            reveal_strlit("::");
                        }
                        push_groups(&mut out, &groups, 0, start);
                        out.append("::");
                        push_groups(&mut out, &groups, start + len, 8);
                        assert("::"@ =~= seq![':', ':']);
                        assert(groups@.subrange(0, start as int) =~= groups@.take(start as int));
                        assert(groups@.subrange(start + len, 8) =~= groups@.skip(start + len));
                    } else {
                        push_groups(&mut out, &groups, 0, 8);
                        assert(groups@.subrange(0, 8) =~= groups@);
                    }
                }
            },
        }
        out
    }

    /// The groups of a version 6 address; none for version 4.
    pub open spec fn groups(self) -> Seq<u16> {
        match self {
            IpAddress::V4(..) => Seq::empty(),
            IpAddress::V6(a, b, c, d, e, f, g, h) => seq![a, b, c, d, e, f, g, h],
        }
    }

    /// The text literal of the address.
    pub open spec fn literal(self) -> Seq<char> {
        match self {
            IpAddress::V4(a, b, c, d) => quad_text(a, b, c, d),
            IpAddress::V6(..) => v6_text(self.groups()),
        }
    }
}

} // verus!

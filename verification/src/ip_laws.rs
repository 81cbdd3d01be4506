//! An address that is written as text and read again is the same address.

use vstd::prelude::*;
use crate::ip::{
    IpAddress, digit_at, digit_run, digit_value, digits_value, group_of, read_char, read_group,
    read_groups, read_octet, read_octets, read_separator, read_v4, read_v6, GroupRun,
};
use crate::ip_text::{
    digit_char, group_text, groups_text, high_octet, is_mapped, longest_zeros, low_octet,
    more_groups_text, octet_text, quad_text, scan_zeros, v6_text, zeros_at,
};

verus! {

/// Whether `piece` stands in `text` at position `at`.
spec fn holds_at(text: Seq<char>, at: int, piece: Seq<char>) -> bool {
    0 <= at && at + piece.len() <= text.len() && forall|i: int|
        0 <= i < piece.len() ==> text[at + i] == #[trigger] piece[i]
}

/// Where two pieces stand one behind the other, each of them stands.
proof fn lemma_holds_split(text: Seq<char>, at: int, first: Seq<char>, second: Seq<char>)
    requires
        holds_at(text, at, first + second),
    ensures
        holds_at(text, at, first),
        holds_at(text, at + first.len(), second),
{
    let both = first + second;
    assert forall|i: int| 0 <= i < first.len() implies text[at + i] == #[trigger] first[i] by {
        assert(both[i] == first[i]);
    }
    assert forall|i: int| 0 <= i < second.len() implies text[at + first.len() + i]
        == #[trigger] second[i] by {
        assert(both[first.len() + i] == second[i]);
    }
}

/// A text stands at the start of itself.
proof fn lemma_holds_whole(text: Seq<char>)
    ensures
        holds_at(text, 0, text),
{
}

/// Digits that stand in a row and end are counted exactly.
proof fn lemma_digit_run(text: Seq<char>, at: int, count: nat, hex: bool)
    requires
        forall|i: int| at <= i < at + count ==> digit_at(text, i, hex),
        !digit_at(text, at + count, hex),
    ensures
        digit_run(text, at, hex) == count,
    decreases count,
{
    if count > 0 {
        assert(digit_at(text, at, hex));
        lemma_digit_run(text, at + 1, (count - 1) as nat, hex);
    }
}

/// A run of digits does not pass a position where no digit stands.
proof fn lemma_digit_run_stops(text: Seq<char>, at: int, within: nat, hex: bool)
    requires
        !digit_at(text, at + within, hex),
    ensures
        digit_run(text, at, hex) <= within,
    decreases within,
{
    if within > 0 && digit_at(text, at, hex) {
        lemma_digit_run_stops(text, at + 1, (within - 1) as nat, hex);
    }
}

/// The number that digits spell depends on those digits alone.
proof fn lemma_digits_value_local(
    text: Seq<char>,
    at: int,
    piece: Seq<char>,
    count: nat,
    hex: bool,
)
    requires
        holds_at(text, at, piece),
        count <= piece.len(),
    ensures
        digits_value(text, at, count, hex) == digits_value(piece, 0, count, hex),
    decreases count,
{
    if count > 0 {
        lemma_digits_value_local(text, at, piece, (count - 1) as nat, hex);
        assert(text[at + (count - 1)] == piece[count - 1]);
    }
}

/// The character of a digit has the digit as its value.
proof fn lemma_digit_char(d: int)
    requires
        0 <= d < 16,
    ensures
        digit_value(digit_char(d), true) == Some(d),
        d < 10 ==> digit_value(digit_char(d), false) == Some(d),
        d >= 10 ==> digit_value(digit_char(d), false) is None,
        digit_char(d) != '.',
        digit_char(d) != ':',
        d != 0 ==> digit_char(d) != '0',
{
}

/// What the text of an octet is made of.
proof fn lemma_octet_text(o: u8)
    ensures
        1 <= octet_text(o).len() <= 3,
        forall|i: int|
            0 <= i < octet_text(o).len() ==> digit_value(#[trigger] octet_text(o)[i], false)
                is Some,
        digits_value(octet_text(o), 0, octet_text(o).len(), false) == o,
        octet_text(o).len() > 1 ==> octet_text(o)[0] != '0',
{
    let v = o as int;
    lemma_digit_char(v % 10);
    lemma_digit_char(v / 10 % 10);
    lemma_digit_char(v / 100);
    if v < 100 {
        lemma_digit_char(v / 10);
    }
    reveal_with_fuel(digits_value, 4);
}

/// What the text of a group is made of.
proof fn lemma_group_text(g: u16)
    ensures
        1 <= group_text(g).len() <= 4,
        forall|i: int|
            0 <= i < group_text(g).len() ==> digit_value(#[trigger] group_text(g)[i], true)
                is Some,
        forall|i: int| 0 <= i < group_text(g).len() ==> #[trigger] group_text(g)[i] != '.',
        digits_value(group_text(g), 0, group_text(g).len(), true) == g,
{
    let v = g as int;
    lemma_digit_char(v % 0x10);
    lemma_digit_char(v / 0x10 % 0x10);
    lemma_digit_char(v / 0x100 % 0x10);
    lemma_digit_char(v / 0x1000);
    if v < 0x1000 {
        lemma_digit_char(v / 0x100);
    }
    if v < 0x100 {
        lemma_digit_char(v / 0x10);
    }
    reveal_with_fuel(digits_value, 5);
}

/// An octet that stands in the text, with no digit behind it, is read.
proof fn lemma_read_octet(text: Seq<char>, at: int, o: u8)
    requires
        holds_at(text, at, octet_text(o)),
        !digit_at(text, at + octet_text(o).len(), false),
    ensures
        read_octet(text, at) == Some((o, at + octet_text(o).len())),
{
    let piece = octet_text(o);
    lemma_octet_text(o);
    assert forall|i: int| at <= i < at + piece.len() implies digit_at(text, i, false) by {
        assert(text[at + (i - at)] == piece[i - at]);
    }
    lemma_digit_run(text, at, piece.len(), false);
    lemma_digits_value_local(text, at, piece, piece.len(), false);
    assert(text[at + 0] == piece[0]);
}

/// A group that stands in the text, with no digit behind it, is read.
proof fn lemma_read_group(text: Seq<char>, at: int, g: u16)
    requires
        holds_at(text, at, group_text(g)),
        !digit_at(text, at + group_text(g).len(), true),
    ensures
        read_group(text, at) == Some((g, at + group_text(g).len())),
{
    let piece = group_text(g);
    lemma_group_text(g);
    assert forall|i: int| at <= i < at + piece.len() implies digit_at(text, i, true) by {
        assert(text[at + (i - at)] == piece[i - at]);
    }
    lemma_digit_run(text, at, piece.len(), true);
    lemma_digits_value_local(text, at, piece, piece.len(), true);
}

/// A dotted quad that stands in the text, with no digit behind it, is read.
proof fn lemma_read_quad(text: Seq<char>, at: int, a: u8, b: u8, c: u8, d: u8)
    requires
        holds_at(text, at, quad_text(a, b, c, d)),
        !digit_at(text, at + quad_text(a, b, c, d).len(), false),
    ensures
        read_v4(text, at) == Some((seq![a, b, c, d], at + quad_text(a, b, c, d).len())),
{
    let dot = seq!['.'];
    let upto_a = octet_text(a);
    let upto_b = upto_a + dot + octet_text(b);
    let upto_c = upto_b + dot + octet_text(c);
    let after_a = at + upto_a.len();
    let after_b = at + upto_b.len();
    let after_c = at + upto_c.len();
    let end = at + quad_text(a, b, c, d).len();
    assert(holds_at(text, at, octet_text(a)) && holds_at(text, after_a + 1, octet_text(b))
        && holds_at(text, after_b + 1, octet_text(c)) && holds_at(
        text,
        after_c + 1,
        octet_text(d),
    ) && text[after_a] == '.' && text[after_b] == '.' && text[after_c] == '.' && end == after_c
        + 1 + octet_text(d).len()) by {
        lemma_holds_split(text, at, upto_c + dot, octet_text(d));
        lemma_holds_split(text, at, upto_c, dot);
        lemma_holds_split(text, at, upto_b + dot, octet_text(c));
        lemma_holds_split(text, at, upto_b, dot);
        lemma_holds_split(text, at, upto_a + dot, octet_text(b));
        lemma_holds_split(text, at, upto_a, dot);
        assert(text[after_a + 0] == dot[0]);
        assert(text[after_b + 0] == dot[0]);
        assert(text[after_c + 0] == dot[0]);
    }
    assert(read_octet(text, at) == Some((a, after_a))) by {
        lemma_read_octet(text, at, a);
    }
    assert(read_octet(text, after_a + 1) == Some((b, after_b))) by {
        lemma_read_octet(text, after_a + 1, b);
    }
    assert(read_octet(text, after_b + 1) == Some((c, after_c))) by {
        lemma_read_octet(text, after_b + 1, c);
    }
    assert(read_octet(text, after_c + 1) == Some((d, end))) by {
        lemma_read_octet(text, after_c + 1, d);
    }
    assert(read_octets(text, end, 4) == Some((Seq::<u8>::empty(), end)));
    assert(read_octets(text, after_c, 3) == Some((seq![d], end))) by {
        assert(seq![d] + Seq::<u8>::empty() =~= seq![d]);
    }
    assert(read_octets(text, after_b, 2) == Some((seq![c, d], end))) by {
        assert(seq![c] + seq![d] =~= seq![c, d]);
    }
    assert(read_octets(text, after_a, 1) == Some((seq![b, c, d], end))) by {
        assert(seq![b] + seq![c, d] =~= seq![b, c, d]);
    }
    assert(read_octets(text, at, 0) == Some((seq![a, b, c, d], end))) by {
        assert(seq![a] + seq![b, c, d] =~= seq![a, b, c, d]);
    }
}

/// Where a group stands before a colon or the end, no dotted quad is read.
proof fn lemma_no_quad_at_group(text: Seq<char>, at: int, g: u16)
    requires
        holds_at(text, at, group_text(g)),
        at + group_text(g).len() == text.len() || text[at + group_text(g).len()] == ':',
    ensures
        read_v4(text, at) is None,
{
    let piece = group_text(g);
    lemma_group_text(g);
    lemma_digit_run_stops(text, at, piece.len(), false);
    let next = at + digit_run(text, at, false);
    if next < at + piece.len() {
        assert(text[at + (next - at)] == piece[next - at]);
    }
    reveal_with_fuel(read_octets, 2);
}

/// At a colon or at the end neither a dotted quad nor a group is read.
proof fn lemma_nothing_at_colon(text: Seq<char>, at: int)
    requires
        0 <= at,
        at >= text.len() || text[at] == ':',
    ensures
        read_v4(text, at) is None,
        read_group(text, at) is None,
{
    reveal_with_fuel(read_octets, 2);
}

/// The text of groups from the one with the given index on: the first
/// group of all stands without a colon before it.
spec fn written(groups: Seq<u16>, index: nat) -> Seq<char> {
    if index == 0 {
        groups_text(groups)
    } else {
        more_groups_text(groups)
    }
}

/// Whether a run of groups ends at `end`: the text ends there, or `::`
/// stands there.
spec fn run_ends(text: Seq<char>, end: int) -> bool {
    end == text.len() || (end + 1 < text.len() && text[end] == ':' && text[end + 1] == ':')
}

/// Groups that stand in the text, and end there, are read as they are.
proof fn lemma_read_groups(text: Seq<char>, at: int, index: nat, limit: nat, groups: Seq<u16>)
    requires
        index + groups.len() <= limit,
        holds_at(text, at, written(groups, index)),
        run_ends(text, at + written(groups, index).len()),
    ensures
        read_groups(text, at, index, limit) == (GroupRun {
            groups,
            dotted: false,
            end: at + written(groups, index).len(),
        }),
    decreases groups.len(),
{
    let run = read_groups(text, at, index, limit);
    if groups.len() == 0 {
        assert(written(groups, index) =~= Seq::<char>::empty());
        if index < limit {
            lemma_nothing_at_colon(text, at);
            if index > 0 && at < text.len() {
                lemma_nothing_at_colon(text, at + 1);
            }
        }
        assert(run.groups =~= groups);
    } else {
        let g = groups[0];
        let rest = groups.drop_first();
        let colon = seq![':'];
        let start = if index == 0 {
            at
        } else {
            at + 1
        };
        if index == 0 {
            lemma_holds_split(text, at, group_text(g), more_groups_text(rest));
        } else {
            lemma_holds_split(text, at, colon + group_text(g), more_groups_text(rest));
            lemma_holds_split(text, at, colon, group_text(g));
            assert(text[at + 0] == colon[0]);
        }
        let next = start + group_text(g).len();
        assert(written(rest, index + 1) == more_groups_text(rest));
        assert(next + more_groups_text(rest).len() == at + written(groups, index).len());
        if rest.len() > 0 {
            let more = colon + group_text(rest[0]) + more_groups_text(rest.drop_first());
            assert(more[0] == ':');
            assert(text[next + 0] == more[0]);
        } else {
            assert(more_groups_text(rest) =~= Seq::<char>::empty());
        }
        assert(next == text.len() || text[next] == ':');
        lemma_no_quad_at_group(text, start, g);
        lemma_read_group(text, start, g);
        lemma_read_groups(text, next, index + 1, limit, rest);
        assert(seq![g] + rest =~= groups);
    }
}

/// What a scan for zero groups has found: both stretches lie within the
/// groups scanned and hold zeros only, and the current one ends where the
/// scan stands.
proof fn lemma_scan_zeros(groups: Seq<u16>, upto: nat)
    requires
        upto <= groups.len(),
    ensures
        ({
            let scan = scan_zeros(groups, upto);
            &&& 0 <= scan.longest.start
            &&& 0 <= scan.longest.len
            &&& scan.longest.start + scan.longest.len <= upto
            &&& forall|i: int|
                scan.longest.start <= i < scan.longest.start + scan.longest.len ==> groups[i] == 0
            &&& 0 <= scan.current.start
            &&& 0 <= scan.current.len
            &&& scan.current.len > 0 ==> scan.current.start + scan.current.len == upto
            &&& forall|i: int|
                scan.current.start <= i < scan.current.start + scan.current.len ==> groups[i] == 0
        }),
    decreases upto,
{
    if upto > 0 {
        lemma_scan_zeros(groups, (upto - 1) as nat);
    }
}

/// What a scan for zero groups has found, held against every stretch of
/// zeros among the groups scanned: none is longer than the longest, none as
/// long starts before it, and none that ends where the scan stands is longer
/// than the current one.
proof fn lemma_scan_longest(groups: Seq<u16>, upto: nat)
    requires
        upto <= groups.len(),
    ensures
        ({
            let scan = scan_zeros(groups, upto);
            &&& scan.current.len <= scan.longest.len
            &&& forall|start: int, len: int|
                #[trigger] zeros_at(groups, start, len) && start + len <= upto ==> len
                    <= scan.longest.len
            &&& forall|start: int, len: int|
                #[trigger] zeros_at(groups, start, len) && start + len == upto ==> len
                    <= scan.current.len
            &&& forall|start: int, len: int|
                #[trigger] zeros_at(groups, start, len) && start + len <= upto && len > 0 && len
                    == scan.longest.len ==> scan.longest.start <= start
        }),
    decreases upto,
{
    lemma_scan_zeros(groups, upto);
    if upto > 0 {
        let before = scan_zeros(groups, (upto - 1) as nat);
        let scan = scan_zeros(groups, upto);
        lemma_scan_longest(groups, (upto - 1) as nat);
        lemma_scan_zeros(groups, (upto - 1) as nat);
        assert forall|start: int, len: int|
            #[trigger] zeros_at(groups, start, len) && start + len == upto implies len
            <= scan.current.len by {
            if len > 0 {
                assert(groups[upto - 1] == 0);
                assert(zeros_at(groups, start, len - 1));
            }
        }
        assert forall|start: int, len: int|
            #[trigger] zeros_at(groups, start, len) && start + len <= upto implies len
            <= scan.longest.len by {
            if start + len == upto && len > 0 {
                assert(groups[upto - 1] == 0);
                assert(zeros_at(groups, start, len - 1));
            }
        }
        assert forall|start: int, len: int|
            #[trigger] zeros_at(groups, start, len) && start + len <= upto && len > 0 && len
                == scan.longest.len implies scan.longest.start <= start by {
            if start + len == upto {
                assert(groups[upto - 1] == 0);
                assert(zeros_at(groups, start, len - 1));
            }
        }
    }
}

/// The stretch that is written as `::` is the first of the longest
/// stretches of zero groups: it holds zeros only, no stretch of zeros is
/// longer, and none as long starts before it.
pub proof fn lemma_longest_zeros(groups: Seq<u16>)
    ensures
        zeros_at(groups, longest_zeros(groups).start, longest_zeros(groups).len),
        forall|start: int, len: int|
            #[trigger] zeros_at(groups, start, len) ==> len <= longest_zeros(groups).len,
        forall|start: int|
            #[trigger] zeros_at(groups, start, longest_zeros(groups).len) && longest_zeros(
                groups,
            ).len > 0 ==> longest_zeros(groups).start <= start,
{
    lemma_scan_zeros(groups, groups.len());
    lemma_scan_longest(groups, groups.len());
}

/// A version 4 address reads back from its text.
proof fn lemma_v4_reads_back(a: u8, b: u8, c: u8, d: u8)
    ensures
        IpAddress::of_text(quad_text(a, b, c, d)) == Some(IpAddress::V4(a, b, c, d)),
{
    let text = quad_text(a, b, c, d);
    lemma_holds_whole(text);
    lemma_read_quad(text, 0, a, b, c, d);
}

/// Digits stand at every position of a run of digits.
proof fn lemma_digit_run_all(text: Seq<char>, at: int, hex: bool)
    ensures
        forall|i: int| at <= i < at + digit_run(text, at, hex) ==> digit_at(text, i, hex),
    decreases text.len() - at,
{
    if digit_at(text, at, hex) {
        lemma_digit_run_all(text, at + 1, hex);
    }
}

/// An octet is read off its own text and no other.
proof fn lemma_octet_spelling(text: Seq<char>, at: int, o: u8, next: int)
    requires
        read_octet(text, at) == Some((o, next)),
    ensures
        0 <= at < next <= text.len(),
        text.subrange(at, next) == octet_text(o),
{
    lemma_digit_run_all(text, at, false);
    reveal_with_fuel(digits_value, 4);
    let count = digit_run(text, at, false);
    assert(digit_at(text, at, false));
    if count >= 2 {
        assert(digit_at(text, at + 1, false));
    }
    if count >= 3 {
        assert(digit_at(text, at + 2, false));
    }
    assert(text.subrange(at, next) =~= octet_text(o));
}

/// A dotted quad is read off its own text and no other.
proof fn lemma_quad_spelling(text: Seq<char>, at: int, octets: Seq<u8>, end: int)
    requires
        read_v4(text, at) == Some((octets, end)),
    ensures
        octets.len() == 4,
        0 <= at <= end <= text.len(),
        text.subrange(at, end) == quad_text(octets[0], octets[1], octets[2], octets[3]),
{
    let dot = seq!['.'];
    let (a, after_a) = read_octet(text, at)->Some_0;
    let second = read_octets(text, after_a, 1);
    assert(second is Some);
    let (b, after_b) = read_octet(text, after_a + 1)->Some_0;
    let third = read_octets(text, after_b, 2);
    assert(third is Some);
    let (c, after_c) = read_octet(text, after_b + 1)->Some_0;
    let fourth = read_octets(text, after_c, 3);
    assert(fourth is Some);
    let (d, after_d) = read_octet(text, after_c + 1)->Some_0;
    let last = read_octets(text, after_d, 4);
    assert(last == Some((Seq::<u8>::empty(), after_d)));
    assert(fourth == Some((seq![d], after_d))) by {
        assert(seq![d] + Seq::<u8>::empty() =~= seq![d]);
    }
    assert(third == Some((seq![c, d], after_d))) by {
        assert(seq![c] + seq![d] =~= seq![c, d]);
    }
    assert(second == Some((seq![b, c, d], after_d))) by {
        assert(seq![b] + seq![c, d] =~= seq![b, c, d]);
    }
    assert(octets == seq![a, b, c, d] && end == after_d) by {
        assert(seq![a] + seq![b, c, d] =~= seq![a, b, c, d]);
    }
    assert(text[after_a] == '.' && text[after_b] == '.' && text[after_c] == '.');
    lemma_octet_spelling(text, at, a, after_a);
    lemma_octet_spelling(text, after_a + 1, b, after_b);
    lemma_octet_spelling(text, after_b + 1, c, after_c);
    lemma_octet_spelling(text, after_c + 1, d, after_d);
    let spelled = text.subrange(at, after_a) + dot + text.subrange(after_a + 1, after_b) + dot
        + text.subrange(after_b + 1, after_c) + dot + text.subrange(after_c + 1, after_d);
    assert(text.subrange(at, end) =~= spelled);
}

/// A version 4 address has one spelling: a text is read as the address
/// exactly if it is the dotted quad of its four octets.
pub proof fn lemma_dotted_quad_only(text: Seq<char>, a: u8, b: u8, c: u8, d: u8)
    ensures
        IpAddress::of_text(text) == Some(IpAddress::V4(a, b, c, d)) <==> text == quad_text(
            a,
            b,
            c,
            d,
        ),
{
    lemma_v4_reads_back(a, b, c, d);
    if IpAddress::of_text(text) == Some(IpAddress::V4(a, b, c, d)) {
        let (octets, end) = read_v4(text, 0)->Some_0;
        lemma_quad_spelling(text, 0, octets, end);
        assert(text.subrange(0, end) =~= text);
    }
}

/// No dotted quad is read at the start of groups that are followed by the
/// end of the text or by `::`.
proof fn lemma_no_quad_at_groups(text: Seq<char>, groups: Seq<u16>)
    requires
        holds_at(text, 0, groups_text(groups)),
        run_ends(text, groups_text(groups).len() as int),
    ensures
        read_v4(text, 0) is None,
{
    if groups.len() == 0 {
        assert(groups_text(groups) =~= Seq::<char>::empty());
        lemma_nothing_at_colon(text, 0);
    } else {
        let rest = groups.drop_first();
        lemma_holds_split(text, 0, group_text(groups[0]), more_groups_text(rest));
        let next = group_text(groups[0]).len() as int;
        if rest.len() > 0 {
            let more = seq![':'] + group_text(rest[0]) + more_groups_text(rest.drop_first());
            assert(more[0] == ':');
            assert(text[next + 0] == more[0]);
        } else {
            assert(more_groups_text(rest) =~= Seq::<char>::empty());
        }
        lemma_no_quad_at_group(text, 0, groups[0]);
    }
}

/// Groups written with `::` for a stretch of zeros read back.
proof fn lemma_shortened_reads_back(groups: Seq<u16>, start: int, len: int)
    requires
        groups.len() == 8,
        0 <= start,
        1 <= len,
        start + len <= 8,
        forall|i: int| start <= i < start + len ==> groups[i] == 0,
    ensures
        ({
            let text = groups_text(groups.take(start)) + seq![':', ':'] + groups_text(
                groups.skip(start + len),
            );
            &&& read_v4(text, 0) is None
            &&& read_v6(text, 0) == Some((groups, text.len() as int))
        }),
{
    let head = groups.take(start);
    let tail = groups.skip(start + len);
    let colons = seq![':', ':'];
    let text = groups_text(head) + colons + groups_text(tail);
    let head_end = groups_text(head).len() as int;
    let tail_limit = (7 - head.len()) as nat;
    assert(holds_at(text, 0, groups_text(head)) && holds_at(text, head_end + 2, groups_text(tail))
        && text[head_end] == ':' && text[head_end + 1] == ':' && text.len() == head_end + 2
        + groups_text(tail).len()) by {
        lemma_holds_whole(text);
        lemma_holds_split(text, 0, groups_text(head) + colons, groups_text(tail));
        lemma_holds_split(text, 0, groups_text(head), colons);
        assert(text[head_end + 0] == colons[0]);
        assert(text[head_end + 1] == colons[1]);
    }
    assert(read_v4(text, 0) is None) by {
        lemma_no_quad_at_groups(text, head);
    }
    assert(read_groups(text, 0, 0, 8) == GroupRun { groups: head, dotted: false, end: head_end })
        by {
        lemma_read_groups(text, 0, 0, 8, head);
    }
    assert(read_groups(text, head_end + 2, 0, tail_limit) == GroupRun {
        groups: tail,
        dotted: false,
        end: text.len() as int,
    }) by {
        lemma_read_groups(text, head_end + 2, 0, tail_limit, tail);
    }
    assert(read_char(text, head_end, ':') == Some(head_end + 1));
    assert(read_char(text, head_end + 1, ':') == Some(head_end + 2));
    assert(head + Seq::new((8 - head.len() - tail.len()) as nat, |i: int| 0u16) + tail =~= groups);
}

/// Eight groups written in full read back.
proof fn lemma_full_reads_back(groups: Seq<u16>)
    requires
        groups.len() == 8,
    ensures
        read_v4(groups_text(groups), 0) is None,
        read_v6(groups_text(groups), 0) == Some((groups, groups_text(groups).len() as int)),
{
    let text = groups_text(groups);
    lemma_holds_whole(text);
    lemma_no_quad_at_groups(text, groups);
    lemma_read_groups(text, 0, 0, 8, groups);
}

/// Two octets joined to a group are the octets of that group.
proof fn lemma_group_of_octets(g: u16)
    ensures
        group_of(high_octet(g), low_octet(g)) == g,
{
}

/// A mapped version 4 address reads back from its text.
proof fn lemma_mapped_reads_back(groups: Seq<u16>)
    requires
        groups.len() == 8,
        is_mapped(groups),
    ensures
        read_v4(v6_text(groups), 0) is None,
        read_v6(v6_text(groups), 0) == Some((groups, v6_text(groups).len() as int)),
{
    let a = high_octet(groups[6]);
    let b = low_octet(groups[6]);
    let c = high_octet(groups[7]);
    let d = low_octet(groups[7]);
    let lead = seq![':', ':', 'f', 'f', 'f', 'f', ':'];
    let text = lead + quad_text(a, b, c, d);
    assert(text == v6_text(groups));
    lemma_holds_whole(text);
    lemma_holds_split(text, 0, lead, quad_text(a, b, c, d));
    assert(text[0] == lead[0]);
    assert(text[1] == lead[1]);
    assert(text[2] == lead[2]);
    assert(text[3] == lead[3]);
    assert(text[4] == lead[4]);
    assert(text[5] == lead[5]);
    assert(text[6] == lead[6]);
    lemma_nothing_at_colon(text, 0);
    let head = read_groups(text, 0, 0, 8);
    assert(head == GroupRun { groups: Seq::<u16>::empty(), dotted: false, end: 0 });
    lemma_digit_char(15);
    assert(group_text(0xffff) =~= seq!['f', 'f', 'f', 'f']);
    assert(holds_at(text, 2, group_text(0xffff)));
    lemma_read_group(text, 2, 0xffff);
    assert(read_v4(text, 2) is None) by {
        reveal_with_fuel(read_octets, 2);
    }
    lemma_read_quad(text, 7, a, b, c, d);
    lemma_group_of_octets(groups[6]);
    lemma_group_of_octets(groups[7]);
    let tail = read_groups(text, 2, 0, 7);
    let quad_run = read_groups(text, 6, 1, 7);
    assert(quad_run == GroupRun {
        groups: seq![groups[6], groups[7]],
        dotted: true,
        end: text.len() as int,
    });
    assert(tail.groups =~= seq![0xffffu16, groups[6], groups[7]]);
    assert(tail.end == text.len());
    assert(Seq::<u16>::empty() + Seq::new(5nat, |i: int| 0u16) + tail.groups =~= groups);
}

impl IpAddress {
    /// Every address reads back from its text literal.
    pub proof fn lemma_literal_reads_back(self)
        ensures
            IpAddress::of_text(self.literal()) == Some(self),
    {
        match self {
            IpAddress::V4(a, b, c, d) => {
                lemma_v4_reads_back(a, b, c, d);
            },
            IpAddress::V6(..) => {
                let groups = self.groups();
                if is_mapped(groups) {
                    lemma_mapped_reads_back(groups);
                } else {
                    let zeros = longest_zeros(groups);
                    lemma_scan_zeros(groups, 8);
                    if zeros.len > 1 {
                        lemma_shortened_reads_back(groups, zeros.start, zeros.len);
                    } else {
                        lemma_full_reads_back(groups);
                    }
                }
            },
        }
    }
}

} // verus!

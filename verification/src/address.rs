//! The address allocator: reads a table of locally bound endpoints, as the
//! kernel prints it, and proposes a loopback prefix that none of them uses.

use vstd::prelude::*;
use vstd::string::*;
use std::collections::HashSet;
use crate::text::{chars_of, decimal, slice_of, push_decimal};

verus! {

broadcast use vstd::std_specs::hash::group_hash_axioms;

/// Whether a character is white space.
pub open spec fn is_space(c: char) -> bool {
    let u = c as u32;
    (0x9 <= u <= 0xD) || u == 0x20 || u == 0x85 || u == 0xA0 || u == 0x1680 || (0x2000 <= u
        <= 0x200A) || u == 0x2028 || u == 0x2029 || u == 0x202F || u == 0x205F || u == 0x3000
}

fn space(c: char) -> (r: bool)
    ensures
        r == is_space(c),
{
    let u: u32 = c as u32;
    (0x9 <= u && u <= 0xD) || u == 0x20 || u == 0x85 || u == 0xA0 || u == 0x1680 || (0x2000 <= u
        && u <= 0x200A) || u == 0x2028 || u == 0x2029 || u == 0x202F || u == 0x205F || u
        == 0x3000
}

/// The lines of a text that ends in a newline, and what follows its last
/// newline.
pub open spec fn split_lines(text: Seq<char>) -> (Seq<Seq<char>>, Seq<char>)
    decreases text.len(),
{
    if text.len() == 0 {
        (Seq::empty(), Seq::empty())
    } else {
        let (lines, pending) = split_lines(text.drop_last());
        if text.last() == '\n' {
            (lines.push(pending), Seq::empty())
        } else {
            (lines, pending.push(text.last()))
        }
    }
}

/// The lines of a text: what stands between its newlines. What follows the
/// last newline is a line unless it is empty.
pub open spec fn lines_of(text: Seq<char>) -> Seq<Seq<char>> {
    let (lines, pending) = split_lines(text);
    if pending.len() > 0 {
        lines.push(pending)
    } else {
        lines
    }
}

/// The first position from `i` on that holds no white space, or the length.
pub open spec fn skip_spaces(s: Seq<char>, i: int) -> int
    decreases s.len() - i,
{
    if 0 <= i < s.len() && is_space(s[i]) {
        skip_spaces(s, i + 1)
    } else {
        i
    }
}

/// The first position from `i` on that holds white space, or the length.
pub open spec fn skip_word(s: Seq<char>, i: int) -> int
    decreases s.len() - i,
{
    if 0 <= i < s.len() && !is_space(s[i]) {
        skip_word(s, i + 1)
    } else {
        i
    }
}

/// The second of the words of a line that white space separates, if it has
/// two.
pub open spec fn second_field(line: Seq<char>) -> Option<Seq<char>> {
    let first = skip_spaces(line, 0);
    let gap = skip_word(line, first);
    let second = skip_spaces(line, gap);
    let end = skip_word(line, second);
    if 0 <= second < end <= line.len() {
        Some(line.subrange(second, end))
    } else {
        None
    }
}

/// The position of the first colon from `i` on, or the length.
pub open spec fn next_colon(s: Seq<char>, i: int) -> int
    decreases s.len() - i,
{
    if 0 <= i < s.len() && s[i] != ':' {
        next_colon(s, i + 1)
    } else {
        i
    }
}

/// The value of a hexadecimal digit, in either case.
pub open spec fn hex_digit(c: char) -> Option<nat> {
    let u = c as u32;
    if 0x30 <= u <= 0x39 {
        Some((u - 0x30) as nat)
    } else if 0x41 <= u <= 0x46 {
        Some((u - 0x41 + 10) as nat)
    } else if 0x61 <= u <= 0x66 {
        Some((u - 0x61 + 10) as nat)
    } else {
        None
    }
}

/// The value of a run of hexadecimal digits; `None` where a character is
/// no such digit.
pub open spec fn hex_value(s: Seq<char>) -> Option<nat>
    decreases s.len(),
{
    if s.len() == 0 {
        Some(0)
    } else {
        match (hex_value(s.drop_last()), hex_digit(s.last())) {
            (Some(v), Some(d)) => Some(v * 16 + d),
            _ => None,
        }
    }
}

/// The number that a text spells in hexadecimal: an optional plus sign and
/// at least one digit, with a value that fits in 32 bits.
pub open spec fn parse_hex(s: Seq<char>) -> Option<u32> {
    let body = if s.len() > 0 && s[0] == '+' {
        s.drop_first()
    } else {
        s
    };
    if body.len() == 0 {
        None
    } else {
        match hex_value(body) {
            Some(v) if v <= u32::MAX => Some(v as u32),
            _ => None,
        }
    }
}

/// The number that stands for the /24 prefix of an address as the table
/// spells it, lowest byte first: the address's first three octets.
pub open spec fn prefix_of(ip: u32) -> u32 {
    (ip % 0x1000000) as u32
}

/// The number that stands for the prefix `first.second.third`.
pub open spec fn prefix_key(first: int, second: int, third: int) -> int {
    first + second * 0x100 + third * 0x10000
}

/// The prefix that a line of the table names: its second word, up to the
/// first colon, read as a hexadecimal address.
pub open spec fn line_prefix(line: Seq<char>) -> Option<u32> {
    match second_field(line) {
        Some(field) => match parse_hex(field.subrange(0, next_colon(field, 0))) {
            Some(ip) => Some(prefix_of(ip)),
            None => None,
        },
        None => None,
    }
}

/// The prefixes that the lines of a table name.
pub open spec fn used_prefixes(table: Seq<char>) -> Set<u32> {
    Set::new(
        |key: u32|
            exists|i: int|
                0 <= i < lines_of(table).len() && line_prefix(#[trigger] lines_of(table)[i])
                    == Some(key),
    )
}

fn lines(text: &Vec<char>) -> (r: Vec<Vec<char>>)
    ensures
        r@.len() == lines_of(text@).len(),
        forall|i: int| 0 <= i < r@.len() ==> (#[trigger] r@[i])@ == lines_of(text@)[i],
{
    let mut done: Vec<Vec<char>> = Vec::new();
    let mut pending: Vec<char> = Vec::new();
    let mut i: usize = 0;
    while i < text.len()
        invariant
            i <= text@.len(),
            done@.len() == split_lines(text@.take(i as int)).0.len(),
            forall|j: int|
                0 <= j < done@.len() ==> (#[trigger] done@[j])@ == split_lines(
                    text@.take(i as int),
                ).0[j],
            pending@ == split_lines(text@.take(i as int)).1,
        decreases text@.len() - i,
    {
        assert(text@.take(i + 1).drop_last() =~= text@.take(i as int));
        if text[i] == '\n' {
            done.push(pending);
            pending = Vec::new();
        } else {
            pending.push(text[i]);
        }
        i = i + 1;
    }
    assert(text@.take(i as int) =~= text@);
    if pending.len() > 0 {
        done.push(pending);
    }
    done
}

fn after_spaces(s: &Vec<char>, from: usize) -> (r: usize)
    requires
        from <= s@.len(),
    ensures
        r == skip_spaces(s@, from as int),
        from <= r <= s@.len(),
{
    let mut i: usize = from;
    while i < s.len() && space(s[i])
        invariant
            from <= i <= s@.len(),
            skip_spaces(s@, from as int) == skip_spaces(s@, i as int),
        decreases s@.len() - i,
    {
        i = i + 1;
    }
    i
}

fn after_word(s: &Vec<char>, from: usize) -> (r: usize)
    requires
        from <= s@.len(),
    ensures
        r == skip_word(s@, from as int),
        from <= r <= s@.len(),
{
    let mut i: usize = from;
    while i < s.len() && !space(s[i])
        invariant
            from <= i <= s@.len(),
            skip_word(s@, from as int) == skip_word(s@, i as int),
        decreases s@.len() - i,
    {
        i = i + 1;
    }
    i
}

fn colon_from(s: &Vec<char>, from: usize) -> (r: usize)
    requires
        from <= s@.len(),
    ensures
        r == next_colon(s@, from as int),
        from <= r <= s@.len(),
{
    let mut i: usize = from;
    while i < s.len() && s[i] != ':'
        invariant
            from <= i <= s@.len(),
            next_colon(s@, from as int) == next_colon(s@, i as int),
        decreases s@.len() - i,
    {
        i = i + 1;
    }
    i
}

fn field_of(line: &Vec<char>) -> (r: Option<Vec<char>>)
    ensures
        match r {
            Some(field) => second_field(line@) == Some(field@),
            None => second_field(line@) is None,
        },
{
    let first = after_spaces(line, 0);
    let gap = after_word(line, first);
    let second = after_spaces(line, gap);
    let end = after_word(line, second);
    if second < end {
        Some(slice_of(line, second, end))
    } else {
        None
    }
}

fn digit_of(c: char) -> (r: Option<u64>)
    ensures
        match r {
            Some(d) => hex_digit(c) == Some(d as nat) && d < 16,
            None => hex_digit(c) is None,
        },
{
    let u: u32 = c as u32;
    if 0x30 <= u && u <= 0x39 {
        Some((u - 0x30) as u64)
    } else if 0x41 <= u && u <= 0x46 {
        Some((u - 0x41 + 10) as u64)
    } else if 0x61 <= u && u <= 0x66 {
        Some((u - 0x61 + 10) as u64)
    } else {
        None
    }
}

/// Reads a hexadecimal number of at most 32 bits: an optional plus sign,
/// then digits in either case.
pub fn parse_hex_u32(s: &Vec<char>) -> (r: Option<u32>)
    ensures
        r == parse_hex(s@),
{
    let start: usize = if s.len() > 0 && s[0] == '+' {
        1
    } else {
        0
    };
    let ghost body = s@.subrange(start as int, s@.len() as int);
    assert(start == 1 ==> body =~= s@.drop_first());
    assert(start == 0 ==> body =~= s@);
    if start == s.len() {
        return None;
    }
    let limit: u64 = 0x1_0000_0000;
    let mut value: u64 = 0;
    let mut valid = true;
    let mut i: usize = start;
    assert(body.take(0) =~= Seq::<char>::empty());
    while i < s.len()
        invariant
            start <= i <= s@.len(),
            body == s@.subrange(start as int, s@.len() as int),
            limit == 0x1_0000_0000,
            valid == hex_value(body.take(i - start)) is Some,
            valid ==> value == if hex_value(body.take(i - start))->0 < limit {
                hex_value(body.take(i - start))->0
            } else {
                limit as nat
            },
        decreases s@.len() - i,
    {
        assert(body.take(i + 1 - start).drop_last() =~= body.take(i - start));
        assert(body.take(i + 1 - start).last() == s@[i as int]);
        match digit_of(s[i]) {
            Some(d) => {
                if valid {
                    let next: u64 = value * 16 + d;
                    value = if next < limit {
                        next
                    } else {
                        limit
                    };
                }
            },
            None => {
                valid = false;
            },
        }
        i = i + 1;
    }
    assert(body.take(i - start) =~= body);
    if valid && value < limit {
        Some(value as u32)
    } else {
        None
    }
}

fn prefix_of_line(line: &Vec<char>) -> (r: Option<u32>)
    ensures
        r == line_prefix(line@),
{
    match field_of(line) {
        Some(field) => {
            let colon = colon_from(&field, 0);
            let head = slice_of(&field, 0, colon);
            match parse_hex_u32(&head) {
                Some(ip) => Some(ip % 0x1000000),
                None => None,
            }
        },
        None => None,
    }
}

/// Collects the /24 prefixes that the lines of the table name. A line
/// without a second word, or whose second word does not start with a
/// hexadecimal address, names none.
pub fn prefixes_in_use(tcp_table: &str) -> (r: HashSet<u32>)
    ensures
        r@ == used_prefixes(tcp_table@),
{
    let text = chars_of(tcp_table);
    let all = lines(&text);
    let mut used: HashSet<u32> = HashSet::new();
    let mut i: usize = 0;
    while i < all.len()
        invariant
            i <= all@.len(),
            all@.len() == lines_of(tcp_table@).len(),
            forall|j: int| 0 <= j < all@.len() ==> (#[trigger] all@[j])@ == lines_of(tcp_table@)[j],
            forall|key: u32|
                used@.contains(key) <==> exists|j: int|
                    0 <= j < i && line_prefix(#[trigger] lines_of(tcp_table@)[j]) == Some(key),
        decreases all@.len() - i,
    {
        let ghost before = used@;
        match prefix_of_line(&all[i]) {
            Some(key) => {
                used.insert(key);
                assert(line_prefix(lines_of(tcp_table@)[i as int]) == Some(key));
            },
            None => {},
        }
        assert forall|key: u32|
            used@.contains(key) <==> exists|j: int|
                0 <= j < i + 1 && line_prefix(#[trigger] lines_of(tcp_table@)[j]) == Some(
                    key,
                ) by {
            if used@.contains(key) {
                if before.contains(key) {
                    let j = choose|j: int|
                        0 <= j < i && line_prefix(#[trigger] lines_of(tcp_table@)[j]) == Some(
                            key,
                        );
                    assert(0 <= j < i + 1);
                } else {
                    assert(line_prefix(lines_of(tcp_table@)[i as int]) == Some(key));
                }
            }
            if exists|j: int|
                0 <= j < i + 1 && line_prefix(#[trigger] lines_of(tcp_table@)[j]) == Some(key) {
                let j = choose|j: int|
                    0 <= j < i + 1 && line_prefix(#[trigger] lines_of(tcp_table@)[j]) == Some(
                        key,
                    );
                if j < i {
                    assert(before.contains(key));
                }
            }
        }
        i = i + 1;
    }
    assert(used@ =~= used_prefixes(tcp_table@));
    used
}

/// Whether `127.second.third` is a prefix that is tried when the octets
/// run from `lowest` to 255 each. The prefix `127.0.0`, kept for ordinary
/// loopback use, is never tried.
pub open spec fn is_candidate(lowest: int, second: int, third: int) -> bool {
    lowest <= second <= 255 && lowest <= third <= 255 && !(second == 0 && third == 0)
}

/// Whether the candidate `(x, y)` is tried before the candidate `(a, b)`.
pub open spec fn tried_before(x: int, y: int, a: int, b: int) -> bool {
    x < a || (x == a && y < b)
}

/// Whether the prefix `127.second.third` is in use.
pub open spec fn in_use(used: Set<u32>, second: int, third: int) -> bool {
    used.contains(prefix_key(127, second, third) as u32)
}

/// Whether `found` is the answer of a scan of the candidates from `lowest`
/// on: the first candidate, in ascending order of the second octet and then
/// of the third, that is not in use, or `None` where all of them are.
pub open spec fn first_unused(used: Set<u32>, lowest: int, found: Option<(u8, u8)>) -> bool {
    match found {
        Some((a, b)) => {
            &&& is_candidate(lowest, a as int, b as int)
            &&& !in_use(used, a as int, b as int)
            &&& forall|x: int, y: int|
                is_candidate(lowest, x, y) && tried_before(x, y, a as int, b as int)
                    ==> #[trigger] in_use(used, x, y)
        },
        None => forall|x: int, y: int| is_candidate(lowest, x, y) ==> #[trigger] in_use(used, x, y),
    }
}

fn scan(used: &HashSet<u32>, lowest: u32) -> (r: Option<(u8, u8)>)
    requires
        lowest <= 1,
    ensures
        first_unused(used@, lowest as int, r),
{
    let mut a: u32 = lowest;
    while a <= 255
        invariant
            lowest <= a <= 256,
            lowest <= 1,
            forall|x: int, y: int|
                is_candidate(lowest as int, x, y) && x < a ==> #[trigger] in_use(used@, x, y),
        decreases 256 - a,
    {
        let mut b: u32 = lowest;
        while b <= 255
            invariant
                lowest <= a <= 255,
                lowest <= b <= 256,
                lowest <= 1,
                forall|x: int, y: int|
                    is_candidate(lowest as int, x, y) && tried_before(x, y, a as int, b as int)
                        ==> #[trigger] in_use(used@, x, y),
            decreases 256 - b,
        {
            if !(a == 0 && b == 0) {
                let key: u32 = 127 + a * 0x100 + b * 0x10000;
                if !used.contains(&key) {
                    return Some((a as u8, b as u8));
                }
                assert(in_use(used@, a as int, b as int));
            }
            b = b + 1;
        }
        a = a + 1;
    }
    None
}

/// The first loopback prefix that is not in use: the second and third
/// octets of the first candidate that `used` does not hold, where both
/// octets run from 1 to 255. `None` where all the candidates, 255 times 255
/// of them, are in use.
pub fn pick_unused_prefix(used: &HashSet<u32>) -> (r: Option<(u8, u8)>)
    ensures
        first_unused(used@, 1, r),
{
    scan(used, 1)
}

/// A /24 network, `first.second.third.0`.
#[derive(Debug, Clone, Copy, PartialEq, Eq, Structural)]
pub struct Ipv4Network {
    pub first: u8,
    pub second: u8,
    pub third: u8,
}

/// The network of an address as the table spells it, lowest byte first.
pub open spec fn network_of(ip: u32) -> Ipv4Network {
    Ipv4Network {
        first: (ip % 0x100) as u8,
        second: ((ip / 0x100) % 0x100) as u8,
        third: ((ip / 0x10000) % 0x100) as u8,
    }
}

/// The network that an endpoint names: a hexadecimal address, a colon and
/// a port, with no second colon.
pub open spec fn endpoint_network(endpoint: Seq<char>) -> Option<Ipv4Network> {
    let colon = next_colon(endpoint, 0);
    if colon < endpoint.len() && next_colon(endpoint, colon + 1) == endpoint.len() {
        match parse_hex(endpoint.subrange(0, colon)) {
            Some(ip) => Some(network_of(ip)),
            None => None,
        }
    } else {
        None
    }
}

/// The number that stands for a network in a set of prefixes.
pub open spec fn network_key(net: Ipv4Network) -> u32 {
    prefix_key(net.first as int, net.second as int, net.third as int) as u32
}

/// The network that a line of the table names: that of its second word.
pub open spec fn line_network(line: Seq<char>) -> Option<Ipv4Network> {
    match second_field(line) {
        Some(field) => endpoint_network(field),
        None => None,
    }
}

/// The networks that the lines of a table name, its first line apart, which
/// is the table's header.
pub open spec fn active_networks(table: Seq<char>) -> Set<u32> {
    Set::new(
        |key: u32|
            exists|i: int|
                1 <= i < lines_of(table).len() && (match line_network(
                    #[trigger] lines_of(table)[i],
                ) {
                    Some(net) => network_key(net) == key,
                    None => false,
                }),
    )
}

fn network_in(endpoint: &Vec<char>) -> (r: Option<Ipv4Network>)
    ensures
        r == endpoint_network(endpoint@),
{
    let colon = colon_from(endpoint, 0);
    if colon < endpoint.len() && colon_from(endpoint, colon + 1) == endpoint.len() {
        let head = slice_of(endpoint, 0, colon);
        match parse_hex_u32(&head) {
            Some(ip) => Some(
                Ipv4Network {
                    first: (ip % 0x100) as u8,
                    second: ((ip / 0x100) % 0x100) as u8,
                    third: ((ip / 0x10000) % 0x100) as u8,
                },
            ),
            None => None,
        }
    } else {
        None
    }
}

/// Reads the network of an endpoint as the table spells it, such as
/// `0100007F:0016`: the address in hexadecimal, lowest byte first, a colon,
/// and the port.
pub fn ip_str_to_net(hex_ip: &str) -> (r: Option<Ipv4Network>)
    ensures
        r == endpoint_network(hex_ip@),
{
    let endpoint = chars_of(hex_ip);
    network_in(&endpoint)
}

fn key_of(net: Ipv4Network) -> (r: u32)
    ensures
        r == network_key(net),
{
    (net.first as u32) + (net.second as u32) * 0x100 + (net.third as u32) * 0x10000
}

/// Collects the networks that the lines of the table name, its header
/// apart. A line names one where its second word is an endpoint.
pub fn get_active_networks(tcp_table: &str) -> (r: HashSet<u32>)
    ensures
        r@ == active_networks(tcp_table@),
{
    let text = chars_of(tcp_table);
    let all = lines(&text);
    let mut active: HashSet<u32> = HashSet::new();
    let mut i: usize = 1;
    while i < all.len()
        invariant
            1 <= i,
            all@.len() == lines_of(tcp_table@).len(),
            forall|j: int| 0 <= j < all@.len() ==> (#[trigger] all@[j])@ == lines_of(tcp_table@)[j],
            forall|key: u32|
                active@.contains(key) <==> exists|j: int|
                    1 <= j < i && j < all@.len() && (match line_network(
                        #[trigger] lines_of(tcp_table@)[j],
                    ) {
                        Some(net) => network_key(net) == key,
                        None => false,
                    }),
        decreases all@.len() - i,
    {
        let ghost before = active@;
        let found = match field_of(&all[i]) {
            Some(field) => network_in(&field),
            None => None,
        };
        assert(found == line_network(lines_of(tcp_table@)[i as int]));
        match found {
            Some(net) => {
                active.insert(key_of(net));
            },
            None => {},
        }
        assert forall|key: u32|
            active@.contains(key) <==> exists|j: int|
                1 <= j < i + 1 && j < all@.len() && (match line_network(
                    #[trigger] lines_of(tcp_table@)[j],
                ) {
                    Some(net) => network_key(net) == key,
                    None => false,
                }) by {
            if active@.contains(key) {
                if before.contains(key) {
                    let j = choose|j: int|
                        1 <= j < i && j < all@.len() && (match line_network(
                            #[trigger] lines_of(tcp_table@)[j],
                        ) {
                            Some(net) => network_key(net) == key,
                            None => false,
                        });
                    assert(1 <= j < i + 1);
                } else {
                    assert(found is Some && network_key(found->0) == key);
                }
            }
            if exists|j: int|
                1 <= j < i + 1 && j < all@.len() && (match line_network(
                    #[trigger] lines_of(tcp_table@)[j],
                ) {
                    Some(net) => network_key(net) == key,
                    None => false,
                }) {
                let j = choose|j: int|
                    1 <= j < i + 1 && j < all@.len() && (match line_network(
                        #[trigger] lines_of(tcp_table@)[j],
                    ) {
                        Some(net) => network_key(net) == key,
                        None => false,
                    });
                if j < i {
                    assert(before.contains(key));
                }
            }
        }
        i = i + 1;
    }
    assert(active@ =~= active_networks(tcp_table@));
    active
}

/// The first loopback network that is not active: `127.second.third.0` for
/// the first pair of octets, each from 0 to 255 and not both 0, in
/// ascending order of the second and then of the third, that `active` does
/// not hold. Fails where all of them are active.
pub fn find_available_iprange(active: &HashSet<u32>) -> (r: Result<Ipv4Network, String>)
    ensures
        match r {
            Ok(net) => net.first == 127 && first_unused(active@, 0, Some((net.second, net.third))),
            Err(message) => first_unused(active@, 0, None) && message@
                == "No free IP ranges found"@,
        },
{
    match scan(active, 0) {
        Some((second, third)) => Ok(Ipv4Network { first: 127, second, third }),
        None => Err("No free IP ranges found".to_owned()),
    }
}

/// The text of the prefix `127.second.third.`, dot at the end included.
pub open spec fn prefix_text(second: int, third: int) -> Seq<char> {
    "127."@ + decimal(second) + "."@ + decimal(third) + "."@
}

/// The text of the prefix `127.second.third.`.
pub fn prefix_string(second: u8, third: u8) -> (r: String)
    ensures
        r@ == prefix_text(second as int, third as int),
{
    let mut out = "127.".to_owned();
    push_decimal(&mut out, second as i64);
    out.append(".");
    push_decimal(&mut out, third as i64);
    out.append(".");
    out
}

} // verus!

//! The textual form of a socket address: an IPv4 address and a port, such as
//! `127.0.0.1:50051`, or an IPv6 address in brackets and a port, such as
//! `[::1]:50051`, where a scope can follow the address.

use vstd::prelude::*;
use vstd::slice::slice_subrange;

verus! {

pub const COLON: u8 = 58;

pub const DOT: u8 = 46;

pub const PERCENT: u8 = 37;

pub const OPENING_BRACKET: u8 = 91;

pub const CLOSING_BRACKET: u8 = 93;

pub const MAX_OCTET: u64 = 255;

pub const MAX_PORT: u64 = 65535;

pub const MAX_SCOPE: u64 = 4294967295;

pub open spec fn is_digit(b: u8) -> bool {
    48 <= b <= 57
}

pub open spec fn is_hex_digit(b: u8) -> bool {
    is_digit(b) || 65 <= b <= 70 || 97 <= b <= 102
}

/// The number that decimal digits stand for.
pub open spec fn value(digits: Seq<u8>) -> nat
    decreases digits.len(),
{
    if digits.len() == 0 {
        0
    } else {
        (value(digits.drop_last()) * 10 + (digits.last() - 48)) as nat
    }
}

/// A decimal number of at least one digit that is at most `max`.
pub open spec fn is_number(text: Seq<u8>, max: u64) -> bool {
    &&& text.len() > 0
    &&& forall|i: int| 0 <= i < text.len() ==> is_digit(#[trigger] text[i])
    &&& value(text) <= max
}

/// One of the four numbers of an IPv4 address. It has no leading zero.
pub open spec fn is_octet(text: Seq<u8>) -> bool {
    &&& is_number(text, MAX_OCTET)
    &&& text.len() <= 3
    &&& text.len() > 1 ==> text[0] != 48
}

/// One of the eight numbers of an IPv6 address.
pub open spec fn is_group(text: Seq<u8>) -> bool {
    &&& 1 <= text.len() <= 4
    &&& forall|i: int| 0 <= i < text.len() ==> is_hex_digit(#[trigger] text[i])
}

/// Where a byte first occurs.
pub open spec fn first(text: Seq<u8>, b: u8) -> Option<int>
    decreases text.len(),
{
    if text.len() == 0 {
        None
    } else if text[0] == b {
        Some(0)
    } else {
        match first(text.skip(1), b) {
            Some(i) => Some(i + 1),
            None => None,
        }
    }
}

/// The pieces of a text between separators.
pub open spec fn fields(text: Seq<u8>, separator: u8) -> Seq<Seq<u8>>
    decreases text.len(),
{
    match first(text, separator) {
        None => seq![text],
        Some(i) => {
            if 0 <= i < text.len() {
                seq![text.take(i)] + fields(text.skip(i + 1), separator)
            } else {
                seq![text]
            }
        },
    }
}

pub open spec fn is_ipv4(text: Seq<u8>) -> bool {
    let octets = fields(text, DOT);
    &&& octets.len() == 4
    &&& forall|i: int| 0 <= i < 4 ==> is_octet(#[trigger] octets[i])
}

/// How many of the eight numbers of an IPv6 address a list holds. An IPv4
/// address at the end counts for two, where it is allowed.
pub open spec fn group_count(text: Seq<u8>, allow_ipv4: bool) -> Option<int> {
    let groups = fields(text, COLON);
    if text.len() == 0 {
        Some(0)
    } else if exists|i: int| 0 <= i < groups.len() - 1 && !is_group(#[trigger] groups[i]) {
        None
    } else if is_group(groups.last()) {
        Some(groups.len() as int)
    } else if allow_ipv4 && is_ipv4(groups.last()) {
        Some(groups.len() + 1int)
    } else {
        None
    }
}

/// Where two colons first follow each other.
pub open spec fn first_gap(text: Seq<u8>) -> Option<int>
    decreases text.len(),
{
    if text.len() < 2 {
        None
    } else if text[0] == COLON && text[1] == COLON {
        Some(0)
    } else {
        match first_gap(text.skip(1)) {
            Some(i) => Some(i + 1),
            None => None,
        }
    }
}

/// Eight numbers, or fewer around one gap.
pub open spec fn is_ipv6(text: Seq<u8>) -> bool {
    match first_gap(text) {
        None => group_count(text, true) == Some(8int),
        Some(i) => match (group_count(text.take(i), false), group_count(text.skip(i + 2), true)) {
            (Some(before), Some(after)) => before + after <= 7,
            _ => false,
        },
    }
}

pub open spec fn is_socket_address_v4(text: Seq<u8>) -> bool {
    match first(text, COLON) {
        None => false,
        Some(i) => is_ipv4(text.take(i)) && is_number(text.skip(i + 1), MAX_PORT),
    }
}

/// An IPv6 address, with a scope behind it or not.
pub open spec fn is_scoped_ipv6(text: Seq<u8>) -> bool {
    match first(text, PERCENT) {
        None => is_ipv6(text),
        Some(i) => is_ipv6(text.take(i)) && is_number(text.skip(i + 1), MAX_SCOPE),
    }
}

pub open spec fn is_socket_address_v6(text: Seq<u8>) -> bool {
    &&& text.len() > 0
    &&& text[0] == OPENING_BRACKET
    &&& match first(text, CLOSING_BRACKET) {
        None => false,
        Some(i) => {
            &&& is_scoped_ipv6(text.subrange(1, i))
            &&& i + 1 < text.len()
            &&& text[i + 1] == COLON
            &&& is_number(text.skip(i + 2), MAX_PORT)
        },
    }
}

/// Whether a text is a socket address.
pub open spec fn is_socket_address(text: Seq<u8>) -> bool {
    is_socket_address_v4(text) || is_socket_address_v6(text)
}

/// A longer number is not smaller.
proof fn lemma_value_grows(digits: Seq<u8>, count: int)
    requires
        0 <= count <= digits.len(),
        forall|i: int| 0 <= i < digits.len() ==> is_digit(#[trigger] digits[i]),
    ensures
        value(digits.take(count)) <= value(digits),
    decreases digits.len(),
{
    if count == digits.len() {
        assert(digits.take(count) =~= digits);
    } else {
        let fewer = digits.drop_last();
        assert forall|i: int| 0 <= i < fewer.len() implies is_digit(#[trigger] fewer[i]) by {
            assert(is_digit(digits[i]));
        }
        lemma_value_grows(fewer, count);
        assert(fewer.take(count) =~= digits.take(count));
        assert(is_digit(digits[digits.len() - 1]));
    }
}

/// What is found is there, and not before.
proof fn lemma_first(text: Seq<u8>, b: u8)
    ensures
        match first(text, b) {
            Some(i) => 0 <= i < text.len() && text[i] == b && forall|j: int|
                0 <= j < i ==> text[j] != b,
            None => forall|j: int| 0 <= j < text.len() ==> text[j] != b,
        },
    decreases text.len(),
{
    if text.len() > 0 && text[0] != b {
        lemma_first(text.skip(1), b);
        assert forall|j: int|
            1 <= j < (match first(text, b) {
                Some(i) => i,
                None => text.len() as int,
            }) implies text[j] != b by {
            assert(text.skip(1)[j - 1] != b);
        }
    }
}

/// What is there, and not before, is found.
proof fn lemma_first_is(text: Seq<u8>, b: u8, i: int)
    requires
        0 <= i <= text.len(),
        forall|j: int| 0 <= j < i ==> text[j] != b,
        i < text.len() ==> text[i] == b,
    ensures
        first(text, b) == if i < text.len() {
            Some(i)
        } else {
            None::<int>
        },
    decreases text.len(),
{
    lemma_first(text, b);
    if i < text.len() {
        match first(text, b) {
            Some(k) => {
                if k < i {
                    assert(text[k] != b);
                }
            },
            None => {
                assert(text[i] != b);
            },
        }
    }
}

fn find(text: &[u8], b: u8) -> (found: Option<usize>)
    ensures
        match found {
            Some(i) => i < text@.len() && first(text@, b) == Some(i as int),
            None => first(text@, b) is None,
        },
{
    let len: usize = text.len();
    let mut i: usize = 0;
    while i < len
        invariant
            len == text@.len(),
            i <= len,
            forall|j: int| 0 <= j < i ==> text@[j] != b,
        decreases len - i,
    {
        if text[i] == b {
            proof {
                lemma_first_is(text@, b, i as int);
            }
            return Some(i);
        }
        i = i + 1;
    }
    proof {
        lemma_first_is(text@, b, i as int);
    }
    None
}

/// The pieces of a text, as a list of slices shows them.
pub open spec fn pieces_view(pieces: Seq<&[u8]>) -> Seq<Seq<u8>> {
    pieces.map_values(|p: &[u8]| p@)
}

fn split(text: &[u8], separator: u8) -> (pieces: Vec<&[u8]>)
    ensures
        pieces_view(pieces@) == fields(text@, separator),
        pieces@.len() > 0,
{
    let mut pieces: Vec<&[u8]> = Vec::new();
    let mut rest: &[u8] = text;
    assert(pieces_view(pieces@) + fields(rest@, separator) =~= fields(text@, separator));
    loop
        invariant_except_break
            pieces_view(pieces@) + fields(rest@, separator) == fields(text@, separator),
        ensures
            pieces_view(pieces@) == fields(text@, separator),
            pieces@.len() > 0,
        decreases rest@.len(),
    {
        let ghost before = pieces_view(pieces@);
        let ghost current = rest@;
        match find(rest, separator) {
            None => {
                pieces.push(rest);
                assert(pieces_view(pieces@) =~= before + seq![current]);
                break;
            },
            Some(i) => {
                let len: usize = rest.len();
                let piece = slice_subrange(rest, 0, i);
                let after = slice_subrange(rest, i + 1, len);
                pieces.push(piece);
                proof {
                    assert(piece@ =~= current.take(i as int));
                    assert(after@ =~= current.skip(i + 1));
                    assert(pieces_view(pieces@) =~= before + seq![current.take(i as int)]);
                    assert(before + fields(current, separator) =~= pieces_view(pieces@) + fields(
                        after@,
                        separator,
                    ));
                }
                rest = after;
            },
        }
    }
    pieces
}

fn check_number(text: &[u8], max: u64) -> (ok: bool)
    requires
        max <= MAX_SCOPE,
    ensures
        ok == is_number(text@, max),
{
    let len: usize = text.len();
    if len == 0 {
        return false;
    }
    let mut i: usize = 0;
    while i < len
        invariant
            len == text@.len(),
            i <= len,
            forall|j: int| 0 <= j < i ==> is_digit(#[trigger] text@[j]),
        decreases len - i,
    {
        let b: u8 = text[i];
        if b < 48 || b > 57 {
            assert(!is_digit(text@[i as int]));
            return false;
        }
        i = i + 1;
    }
    let mut total: u64 = 0;
    i = 0;
    assert(text@.take(0) =~= Seq::empty());
    while i < len
        invariant
            len == text@.len(),
            i <= len,
            max <= MAX_SCOPE,
            forall|j: int| 0 <= j < len ==> is_digit(#[trigger] text@[j]),
            total == value(text@.take(i as int)),
            total <= max,
        decreases len - i,
    {
        assert(is_digit(text@[i as int]));
        assert(text@.take(i + 1).drop_last() =~= text@.take(i as int));
        total = total * 10 + (text[i] - 48) as u64;
        if total > max {
            proof {
                lemma_value_grows(text@, i + 1);
            }
            return false;
        }
        i = i + 1;
    }
    assert(text@.take(len as int) =~= text@);
    true
}

fn check_octet(text: &[u8]) -> (ok: bool)
    ensures
        ok == is_octet(text@),
{
    if !check_number(text, MAX_OCTET) {
        return false;
    }
    let len: usize = text.len();
    len <= 3 && (len == 1 || text[0] != 48)
}

fn check_group(text: &[u8]) -> (ok: bool)
    ensures
        ok == is_group(text@),
{
    let len: usize = text.len();
    if len == 0 || len > 4 {
        return false;
    }
    let mut i: usize = 0;
    while i < len
        invariant
            len == text@.len(),
            i <= len,
            forall|j: int| 0 <= j < i ==> is_hex_digit(#[trigger] text@[j]),
        decreases len - i,
    {
        let b: u8 = text[i];
        if !((48 <= b && b <= 57) || (65 <= b && b <= 70) || (97 <= b && b <= 102)) {
            assert(!is_hex_digit(text@[i as int]));
            return false;
        }
        i = i + 1;
    }
    true
}

fn check_ipv4(text: &[u8]) -> (ok: bool)
    ensures
        ok == is_ipv4(text@),
{
    let octets = split(text, DOT);
    let ghost views = fields(text@, DOT);
    assert(views == pieces_view(octets@));
    if octets.len() != 4 {
        return false;
    }
    let mut i: usize = 0;
    while i < 4
        invariant
            i <= 4,
            octets@.len() == 4,
            views == pieces_view(octets@),
            views == fields(text@, DOT),
            forall|j: int| 0 <= j < i ==> is_octet(#[trigger] views[j]),
        decreases 4 - i,
    {
        assert(views[i as int] == octets@[i as int]@);
        if !check_octet(octets[i]) {
            return false;
        }
        i = i + 1;
    }
    true
}

fn count_groups(text: &[u8], allow_ipv4: bool) -> (count: Option<u128>)
    ensures
        match count {
            Some(count) => count <= u64::MAX as u128 + 1 && group_count(text@, allow_ipv4) == Some(
                count as int,
            ),
            None => group_count(text@, allow_ipv4) is None,
        },
{
    if text.len() == 0 {
        return Some(0);
    }
    let groups = split(text, COLON);
    let len: usize = groups.len();
    let ghost views = fields(text@, COLON);
    assert(views == pieces_view(groups@));
    let mut i: usize = 0;
    while i < len - 1
        invariant
            0 < len == groups@.len(),
            i < len,
            views == pieces_view(groups@),
            views == fields(text@, COLON),
            text@.len() > 0,
            forall|j: int| 0 <= j < i ==> is_group(#[trigger] views[j]),
        decreases len - i,
    {
        assert(views[i as int] == groups@[i as int]@);
        if !check_group(groups[i]) {
            return None;
        }
        i = i + 1;
    }
    let last = groups[len - 1];
    assert(last@ == views.last());
    if check_group(last) {
        Some(len as u128)
    } else if allow_ipv4 && check_ipv4(last) {
        Some(len as u128 + 1)
    } else {
        None
    }
}

fn find_gap(text: &[u8]) -> (found: Option<usize>)
    ensures
        match found {
            Some(i) => i < text@.len() - 1 && first_gap(text@) == Some(i as int),
            None => first_gap(text@) is None,
        },
{
    let len: usize = text.len();
    if len < 2 {
        return None;
    }
    let mut i: usize = 0;
    assert(text@.skip(0) =~= text@);
    while i < len - 1
        invariant
            2 <= len == text@.len(),
            i < len,
            first_gap(text@) == match first_gap(text@.skip(i as int)) {
                Some(k) => Some(k + i),
                None => None,
            },
        decreases len - i,
    {
        let ghost rest = text@.skip(i as int);
        assert(rest[0] == text@[i as int]);
        assert(rest[1] == text@[i + 1]);
        if text[i] == COLON && text[i + 1] == COLON {
            return Some(i);
        }
        assert(rest.skip(1) =~= text@.skip(i + 1));
        i = i + 1;
    }
    None
}

fn check_ipv6(text: &[u8]) -> (ok: bool)
    ensures
        ok == is_ipv6(text@),
{
    match find_gap(text) {
        None => match count_groups(text, true) {
            Some(count) => count == 8,
            None => false,
        },
        Some(i) => {
            let len: usize = text.len();
            let head = slice_subrange(text, 0, i);
            let tail = slice_subrange(text, i + 2, len);
            assert(head@ =~= text@.take(i as int));
            assert(tail@ =~= text@.skip(i + 2));
            match (count_groups(head, false), count_groups(tail, true)) {
                (Some(before), Some(after)) => before + after <= 7,
                _ => false,
            }
        },
    }
}

fn check_scoped_ipv6(text: &[u8]) -> (ok: bool)
    ensures
        ok == is_scoped_ipv6(text@),
{
    match find(text, PERCENT) {
        None => check_ipv6(text),
        Some(i) => {
            let len: usize = text.len();
            let address = slice_subrange(text, 0, i);
            let scope = slice_subrange(text, i + 1, len);
            assert(address@ =~= text@.take(i as int));
            assert(scope@ =~= text@.skip(i + 1));
            check_ipv6(address) && check_number(scope, MAX_SCOPE)
        },
    }
}

fn check_v4(text: &[u8]) -> (ok: bool)
    ensures
        ok == is_socket_address_v4(text@),
{
    match find(text, COLON) {
        None => false,
        Some(i) => {
            let len: usize = text.len();
            let address = slice_subrange(text, 0, i);
            let port = slice_subrange(text, i + 1, len);
            assert(address@ =~= text@.take(i as int));
            assert(port@ =~= text@.skip(i + 1));
            check_ipv4(address) && check_number(port, MAX_PORT)
        },
    }
}

fn check_v6(text: &[u8]) -> (ok: bool)
    ensures
        ok == is_socket_address_v6(text@),
{
    let len: usize = text.len();
    if len == 0 || text[0] != OPENING_BRACKET {
        return false;
    }
    match find(text, CLOSING_BRACKET) {
        None => false,
        Some(i) => {
            proof {
                lemma_first(text@, CLOSING_BRACKET);
            }
            let address = slice_subrange(text, 1, i);
            assert(address@ =~= text@.subrange(1, i as int));
            if i + 1 >= len || text[i + 1] != COLON {
                return false;
            }
            let port = slice_subrange(text, i + 2, len);
            assert(port@ =~= text@.skip(i + 2));
            check_scoped_ipv6(address) && check_number(port, MAX_PORT)
        },
    }
}

/// Whether a text is a socket address.
pub fn parses_as_socket_address(text: &str) -> (ok: bool)
    ensures
        ok == is_socket_address(vstd::utf8::encode_utf8(text@)),
{
    let bytes: &[u8] = text.as_bytes();
    check_v4(bytes) || check_v6(bytes)
}

/// The decimal digits of a number.
pub open spec fn digits_of(number: nat) -> Seq<u8>
    decreases number,
{
    if number < 10 {
        seq![(48 + number) as u8]
    } else {
        digits_of(number / 10).push((48 + number % 10) as u8)
    }
}

/// The texts one after the other, with a separator between them.
pub open spec fn joined_by(parts: Seq<Seq<u8>>, separator: u8) -> Seq<u8>
    decreases parts.len(),
{
    if parts.len() == 0 {
        Seq::empty()
    } else if parts.len() == 1 {
        parts[0]
    } else {
        parts[0].push(separator) + joined_by(parts.skip(1), separator)
    }
}

/// Whether the text has one to four letters, each `0` to `9`, `A` to `F` or `a` to `f`.
pub open spec fn is_short_hex(text: Seq<u8>) -> bool {
    &&& 1 <= text.len() <= 4
    &&& forall|i: int|
        0 <= i < text.len() ==> 48 <= #[trigger] text[i] <= 57 || 65 <= text[i] <= 70 || 97
            <= text[i] <= 102
}

/// A number is written with digits that stand for it, without zeros in front.
proof fn lemma_digits_of(number: nat)
    ensures
        digits_of(number).len() > 0,
        forall|i: int| 0 <= i < digits_of(number).len() ==> is_digit(#[trigger] digits_of(number)[i]),
        value(digits_of(number)) == number,
        number >= 10 ==> digits_of(number)[0] != 48,
        number < 10 ==> digits_of(number).len() == 1,
        number > 0 ==> digits_of(number)[0] != 48,
        number < 1000 ==> digits_of(number).len() <= 3,
    decreases number,
{
    reveal_with_fuel(digits_of, 3);
    reveal_with_fuel(value, 2);
    if number >= 10 {
        lemma_digits_of(number / 10);
        assert(digits_of(number).drop_last() =~= digits_of(number / 10));
        assert(number < 1000 ==> number / 10 < 100);
    }
}

/// A byte that is neither in the texts nor the separator is not in what they make up.
proof fn lemma_not_in_joined(parts: Seq<Seq<u8>>, separator: u8, b: u8)
    requires
        b != separator,
        forall|i: int, j: int|
            0 <= i < parts.len() && 0 <= j < parts[i].len() ==> #[trigger] parts[i][j] != b,
    ensures
        forall|j: int| 0 <= j < joined_by(parts, separator).len() ==> joined_by(parts, separator)[j] != b,
    decreases parts.len(),
{
    if parts.len() > 1 {
        let rest = parts.skip(1);
        assert forall|i: int, j: int| 0 <= i < rest.len() && 0 <= j < rest[i].len() implies
            #[trigger] rest[i][j] != b by {
            assert(parts[i + 1][j] != b);
        }
        lemma_not_in_joined(rest, separator, b);
        assert forall|j: int| 0 <= j < joined_by(parts, separator).len() implies joined_by(
            parts,
            separator,
        )[j] != b by {
            if j < parts[0].len() {
                assert(parts[0][j] != b);
            } else if j > parts[0].len() {
                assert(joined_by(rest, separator)[j - parts[0].len() - 1] != b);
            }
        }
    } else if parts.len() == 1 {
        assert forall|j: int| 0 <= j < parts[0].len() implies parts[0][j] != b by {}
    }
}

/// Texts that were joined come apart again at the separator.
proof fn lemma_fields_of_joined(parts: Seq<Seq<u8>>, separator: u8)
    requires
        parts.len() > 0,
        forall|i: int, j: int|
            0 <= i < parts.len() && 0 <= j < parts[i].len() ==> #[trigger] parts[i][j]
                != separator,
    ensures
        fields(joined_by(parts, separator), separator) == parts,
    decreases parts.len(),
{
    let text = joined_by(parts, separator);
    let length = parts[0].len() as int;
    assert forall|j: int| 0 <= j < length implies text[j] != separator by {
        assert(parts[0][j] != separator);
    }
    lemma_first_is(text, separator, length);
    if parts.len() == 1 {
        assert(fields(text, separator) =~= parts);
    } else {
        let rest = parts.skip(1);
        assert forall|i: int, j: int| 0 <= i < rest.len() && 0 <= j < rest[i].len() implies
            #[trigger] rest[i][j] != separator by {
            assert(parts[i + 1][j] != separator);
        }
        lemma_fields_of_joined(rest, separator);
        assert(text.take(length) =~= parts[0]);
        assert(text.skip(length + 1) =~= joined_by(rest, separator));
        assert(fields(text, separator) =~= parts);
    }
}

/// An address of four numbers and a port is accepted if, and only if, each of the four
/// fits into one byte and the port into two.
pub proof fn law_dotted_addresses(numbers: Seq<nat>, port: nat)
    requires
        numbers.len() > 0,
    ensures
        is_socket_address(
            joined_by(numbers.map_values(|n: nat| digits_of(n)), 46).push(58) + digits_of(port),
        ) == (numbers.len() == 4 && port <= 65535 && forall|i: int|
            0 <= i < numbers.len() ==> #[trigger] numbers[i] <= 255),
{
    let parts = numbers.map_values(|n: nat| digits_of(n));
    let host = joined_by(parts, DOT);
    let text = host.push(COLON) + digits_of(port);
    assert forall|i: int, j: int| 0 <= i < parts.len() && 0 <= j < parts[i].len() implies is_digit(
        #[trigger] parts[i][j],
    ) by {
        lemma_digits_of(numbers[i]);
        assert(is_digit(digits_of(numbers[i])[j]));
    }
    lemma_not_in_joined(parts, DOT, COLON);
    lemma_not_in_joined(parts, DOT, OPENING_BRACKET);
    lemma_fields_of_joined(parts, DOT);
    lemma_digits_of(port);
    assert forall|j: int| 0 <= j < host.len() implies text[j] != COLON by {
        assert(text[j] == host[j]);
    }
    lemma_first_is(text, COLON, host.len() as int);
    assert(text.take(host.len() as int) =~= host);
    assert(text.skip(host.len() + 1int) =~= digits_of(port));
    assert(text[0] != OPENING_BRACKET) by {
        if host.len() > 0 {
            assert(text[0] == host[0]);
        }
    }
    assert forall|i: int| 0 <= i < parts.len() implies is_octet(#[trigger] parts[i]) == (numbers[i]
        <= 255) by {
        lemma_digits_of(numbers[i]);
        assert forall|j: int| 0 <= j < parts[i].len() implies is_digit(#[trigger] parts[i][j]) by {
            assert(is_digit(digits_of(numbers[i])[j]));
        }
    }
    if is_ipv4(host) {
        assert forall|i: int| 0 <= i < numbers.len() implies #[trigger] numbers[i] <= 255 by {
            assert(is_octet(parts[i]));
        }
    }
    if numbers.len() == 4 && forall|i: int| 0 <= i < numbers.len() ==> #[trigger] numbers[i] <= 255 {
        assert forall|i: int| 0 <= i < 4 implies is_octet(#[trigger] parts[i]) by {
            assert(numbers[i] <= 255);
        }
    }
    assert(is_number(digits_of(port), MAX_PORT) == (port <= 65535));
}

/// Digits without a zero in front are those of the number that they stand for.
proof fn lemma_digits_of_value(digits: Seq<u8>)
    requires
        digits.len() > 0,
        forall|i: int| 0 <= i < digits.len() ==> is_digit(#[trigger] digits[i]),
        digits.len() > 1 ==> digits[0] != 48,
    ensures
        digits_of(value(digits)) == digits,
    decreases digits.len(),
{
    let fewer = digits.drop_last();
    assert(is_digit(digits[digits.len() - 1]));
    if digits.len() == 1 {
        assert(value(fewer) == 0);
        assert(digits_of(value(digits)) =~= digits);
    } else {
        assert forall|i: int| 0 <= i < fewer.len() implies is_digit(#[trigger] fewer[i]) by {
            assert(is_digit(digits[i]));
        }
        lemma_digits_of_value(fewer);
        assert(digits_of(0)[0] == 48);
        assert(value(fewer) > 0);
        assert(value(digits) / 10 == value(fewer));
        assert(digits_of(value(digits)) =~= digits);
    }
}

/// Put together again, the parts of a text make up the text.
proof fn lemma_joined_fields(text: Seq<u8>, separator: u8)
    ensures
        fields(text, separator).len() > 0,
        joined_by(fields(text, separator), separator) == text,
    decreases text.len(),
{
    lemma_first(text, separator);
    if let Some(i) = first(text, separator) {
        let rest = text.skip(i + 1);
        lemma_joined_fields(rest, separator);
        assert(fields(text, separator).skip(1) =~= fields(rest, separator));
        assert(joined_by(fields(text, separator), separator) =~= text);
    }
}

/// Whatever is accepted without a bracket in front is written as four numbers that fit
/// into a byte each, without zeros in front, a colon, and the digits of a port that fits
/// into two bytes.
pub proof fn law_dotted_addresses_have_one_form(text: Seq<u8>) -> (read: (Seq<nat>, Seq<u8>))
    requires
        is_socket_address(text),
        text[0] != 91,
    ensures
        ({
            let (numbers, port) = read;
            &&& numbers.len() == 4
            &&& forall|i: int| 0 <= i < numbers.len() ==> #[trigger] numbers[i] <= 255
            &&& port.len() > 0
            &&& forall|i: int| 0 <= i < port.len() ==> 48 <= #[trigger] port[i] <= 57
            &&& value(port) <= 65535
            &&& text == joined_by(numbers.map_values(|n: nat| digits_of(n)), 46).push(58) + port
        }),
{
    lemma_first(text, COLON);
    let end = first(text, COLON)->0;
    let host = text.take(end);
    let port = text.skip(end + 1);
    let octets = fields(host, DOT);
    let numbers = octets.map_values(|octet: Seq<u8>| value(octet));
    lemma_joined_fields(host, DOT);
    let written = numbers.map_values(|n: nat| digits_of(n));
    assert forall|i: int| 0 <= i < octets.len() implies #[trigger] written[i] == octets[i]
        && numbers[i] <= 255 by {
        assert(is_octet(octets[i]));
        lemma_digits_of_value(octets[i]);
    }
    assert(written =~= octets);
    assert forall|i: int| 0 <= i < numbers.len() implies #[trigger] numbers[i] <= 255 by {
        assert(written[i] == octets[i]);
    }
    assert forall|i: int| 0 <= i < port.len() implies 48 <= #[trigger] port[i] <= 57 by {
        assert(is_digit(port[i]));
    }
    assert(text =~= host.push(COLON) + port);
    (numbers, port)
}

/// Where no colon follows another there is no gap.
proof fn lemma_no_gap(text: Seq<u8>)
    requires
        forall|k: int| 0 <= k < text.len() - 1 ==> !(#[trigger] text[k] == COLON && text[k + 1] == COLON),
    ensures
        first_gap(text) is None,
    decreases text.len(),
{
    if text.len() >= 2 {
        assert(!(text[0] == COLON && text[1] == COLON));
        let rest = text.skip(1);
        assert forall|k: int| 0 <= k < rest.len() - 1 implies !(#[trigger] rest[k] == COLON
            && rest[k + 1] == COLON) by {
            assert(!(text[k + 1] == COLON && text[k + 2] == COLON));
        }
        lemma_no_gap(rest);
    }
}

/// The first gap is where two colons follow one another, and none before.
proof fn lemma_first_gap_is(text: Seq<u8>, i: int)
    requires
        0 <= i < text.len() - 1,
        text[i] == COLON,
        text[i + 1] == COLON,
        forall|k: int| 0 <= k < i ==> !(#[trigger] text[k] == COLON && text[k + 1] == COLON),
    ensures
        first_gap(text) == Some(i),
    decreases text.len(),
{
    if i > 0 {
        assert(!(text[0] == COLON && text[1] == COLON));
        let rest = text.skip(1);
        assert forall|k: int| 0 <= k < i - 1 implies !(#[trigger] rest[k] == COLON && rest[k + 1]
            == COLON) by {
            assert(!(text[k + 1] == COLON && text[k + 2] == COLON));
        }
        lemma_first_gap_is(rest, i - 1);
    }
}

/// Whether the text has something in it, and nothing that sets off the parts of an
/// address in brackets.
spec fn is_part(text: Seq<u8>) -> bool {
    &&& text.len() > 0
    &&& forall|i: int|
        0 <= i < text.len() ==> #[trigger] text[i] != COLON && text[i] != PERCENT && text[i]
            != CLOSING_BRACKET
}

/// Between the parts of an address colons stand alone, and none stands at the ends.
proof fn lemma_joined_parts(groups: Seq<Seq<u8>>)
    requires
        groups.len() > 0,
        forall|i: int| 0 <= i < groups.len() ==> is_part(#[trigger] groups[i]),
    ensures
        ({
            let text = joined_by(groups, COLON);
            &&& text.len() > 0
            &&& text[0] != COLON
            &&& text.last() != COLON
            &&& forall|k: int|
                0 <= k < text.len() - 1 ==> !(#[trigger] text[k] == COLON && text[k + 1] == COLON)
            &&& fields(text, COLON) == groups
            &&& forall|j: int|
                0 <= j < text.len() ==> #[trigger] text[j] != PERCENT && text[j] != CLOSING_BRACKET
        }),
    decreases groups.len(),
{
    let text = joined_by(groups, COLON);
    assert forall|i: int, j: int| 0 <= i < groups.len() && 0 <= j < groups[i].len() implies
        #[trigger] groups[i][j] != COLON && groups[i][j] != PERCENT && groups[i][j]
        != CLOSING_BRACKET by {
        assert(is_part(groups[i]));
    }
    lemma_fields_of_joined(groups, COLON);
    lemma_not_in_joined(groups, COLON, PERCENT);
    lemma_not_in_joined(groups, COLON, CLOSING_BRACKET);
    assert(is_part(groups[0]));
    let length = groups[0].len() as int;
    if groups.len() == 1 {
        assert(text == groups[0]);
    } else {
        let rest = groups.skip(1);
        let tail = joined_by(rest, COLON);
        assert forall|i: int| 0 <= i < rest.len() implies is_part(#[trigger] rest[i]) by {
            assert(is_part(groups[i + 1]));
        }
        lemma_joined_parts(rest);
        assert(text[0] == groups[0][0]);
        assert(text.last() == tail.last());
        assert forall|k: int| 0 <= k < text.len() - 1 implies !(#[trigger] text[k] == COLON
            && text[k + 1] == COLON) by {
            if k < length {
                assert(text[k] == groups[0][k]);
            } else if k == length {
                assert(text[k + 1] == tail[0]);
            } else {
                assert(text[k] == tail[k - length - 1]);
                assert(text[k + 1] == tail[k - length]);
            }
        }
    }
}

/// Between the groups of an address colons stand alone, and none stands at the ends.
proof fn lemma_joined_groups(groups: Seq<Seq<u8>>)
    requires
        groups.len() > 0,
        forall|i: int| 0 <= i < groups.len() ==> is_short_hex(#[trigger] groups[i]),
    ensures
        ({
            let text = joined_by(groups, COLON);
            &&& text.len() > 0
            &&& text.last() != COLON
            &&& forall|k: int|
                0 <= k < text.len() - 1 ==> !(#[trigger] text[k] == COLON && text[k + 1] == COLON)
            &&& fields(text, COLON) == groups
            &&& forall|j: int|
                0 <= j < text.len() ==> #[trigger] text[j] != PERCENT && text[j] != CLOSING_BRACKET
        }),
{
    assert forall|i: int| 0 <= i < groups.len() implies is_part(#[trigger] groups[i]) by {
        assert(is_short_hex(groups[i]));
    }
    lemma_joined_parts(groups);
}

/// How many groups stand in a text that they make up.
proof fn lemma_group_count(groups: Seq<Seq<u8>>, allow_ipv4: bool)
    requires
        forall|i: int| 0 <= i < groups.len() ==> is_short_hex(#[trigger] groups[i]),
    ensures
        group_count(joined_by(groups, COLON), allow_ipv4) == Some(groups.len() as int),
{
    if groups.len() > 0 {
        lemma_joined_groups(groups);
        assert forall|i: int| 0 <= i < groups.len() implies is_group(#[trigger] groups[i]) by {
            assert(is_short_hex(groups[i]));
            assert forall|j: int| 0 <= j < groups[i].len() implies is_hex_digit(
                #[trigger] groups[i][j],
            ) by {}
        }
        assert(is_group(groups.last()));
    }
}

/// An address in brackets is accepted together with a port that fits into two bytes.
proof fn lemma_bracketed(address: Seq<u8>, port: nat)
    requires
        forall|j: int|
            0 <= j < address.len() ==> #[trigger] address[j] != PERCENT && address[j]
                != CLOSING_BRACKET,
    ensures
        is_socket_address(seq![91u8] + address + seq![93u8, 58u8] + digits_of(port)) == (is_ipv6(
            address,
        ) && port <= 65535),
{
    let text = seq![91u8] + address + seq![93u8, 58u8] + digits_of(port);
    let end = address.len() + 1int;
    lemma_digits_of(port);
    assert forall|j: int| 0 <= j < end implies text[j] != CLOSING_BRACKET by {
        if j > 0 {
            assert(text[j] == address[j - 1]);
        }
    }
    lemma_first_is(text, CLOSING_BRACKET, end);
    assert(text.subrange(1, end) =~= address);
    assert(text.skip(end + 2) =~= digits_of(port));
    lemma_first_is(address, PERCENT, address.len() as int);
    assert(is_number(digits_of(port), MAX_PORT) == (port <= 65535));
    assert(is_socket_address_v6(text) == (is_ipv6(address) && port <= 65535));
    lemma_not_dotted(text);
}

/// A text that starts with a bracket is no address of four numbers.
proof fn lemma_not_dotted(text: Seq<u8>)
    requires
        text.len() > 0,
        text[0] == OPENING_BRACKET,
    ensures
        !is_socket_address_v4(text),
{
    lemma_first(text, COLON);
    if let Some(i) = first(text, COLON) {
        let host = text.take(i);
        lemma_first(host, DOT);
        let octets = fields(host, DOT);
        if is_ipv4(host) {
            assert(is_octet(octets[0]));
            assert(octets[0].len() > 0);
            assert(octets[0][0] == host[0]);
            assert(is_digit(octets[0][0]));
        }
    }
}

/// Behind an address of eight groups a scope can follow, after a percent sign, which fits
/// into four bytes.
pub proof fn law_scoped_addresses(groups: Seq<Seq<u8>>, scope: nat, port: nat)
    requires
        groups.len() > 0,
        forall|i: int| 0 <= i < groups.len() ==> is_short_hex(#[trigger] groups[i]),
    ensures
        is_socket_address(
            seq![91u8] + (joined_by(groups, 58).push(37) + digits_of(scope)) + seq![93u8, 58u8]
                + digits_of(port),
        ) == (groups.len() == 8 && scope <= 0xffff_ffff && port <= 65535),
{
    let address = joined_by(groups, COLON);
    let scoped = address.push(PERCENT) + digits_of(scope);
    let text = seq![91u8] + scoped + seq![93u8, 58u8] + digits_of(port);
    let end = scoped.len() + 1int;
    lemma_joined_groups(groups);
    lemma_no_gap(address);
    lemma_group_count(groups, true);
    lemma_digits_of(scope);
    lemma_digits_of(port);
    assert forall|j: int| 0 <= j < scoped.len() implies scoped[j] != CLOSING_BRACKET by {
        if j < address.len() {
            assert(scoped[j] == address[j]);
        } else if j > address.len() {
            assert(scoped[j] == digits_of(scope)[j - address.len() - 1]);
        }
    }
    assert forall|j: int| 0 <= j < end implies text[j] != CLOSING_BRACKET by {
        if j > 0 {
            assert(text[j] == scoped[j - 1]);
        }
    }
    lemma_first_is(text, CLOSING_BRACKET, end);
    assert(text.subrange(1, end) =~= scoped);
    assert(text.skip(end + 2) =~= digits_of(port));
    assert forall|j: int| 0 <= j < address.len() implies scoped[j] != PERCENT by {
        assert(scoped[j] == address[j]);
    }
    lemma_first_is(scoped, PERCENT, address.len() as int);
    assert(scoped.take(address.len() as int) =~= address);
    assert(scoped.skip(address.len() + 1int) =~= digits_of(scope));
    assert(is_number(digits_of(scope), MAX_SCOPE) == (scope <= 0xffff_ffff));
    assert(is_number(digits_of(port), MAX_PORT) == (port <= 65535));
    lemma_not_dotted(text);
}

/// In place of the last two groups four numbers can stand, each of which fits into a byte.
pub proof fn law_numbers_can_stand_for_two_groups(
    groups: Seq<Seq<u8>>,
    numbers: Seq<nat>,
    port: nat,
)
    requires
        forall|i: int| 0 <= i < groups.len() ==> is_short_hex(#[trigger] groups[i]),
        numbers.len() == 4,
        forall|i: int| 0 <= i < numbers.len() ==> #[trigger] numbers[i] <= 255,
    ensures
        is_socket_address(
            seq![91u8] + joined_by(
                groups.push(joined_by(numbers.map_values(|n: nat| digits_of(n)), 46)),
                58,
            ) + seq![93u8, 58u8] + digits_of(port),
        ) == (groups.len() == 6 && port <= 65535),
{
    let octets = numbers.map_values(|n: nat| digits_of(n));
    let dotted = joined_by(octets, DOT);
    let parts = groups.push(dotted);
    let address = joined_by(parts, COLON);
    assert forall|i: int, j: int| 0 <= i < octets.len() && 0 <= j < octets[i].len() implies is_digit(
        #[trigger] octets[i][j],
    ) by {
        lemma_digits_of(numbers[i]);
        assert(is_digit(digits_of(numbers[i])[j]));
    }
    lemma_not_in_joined(octets, DOT, COLON);
    lemma_not_in_joined(octets, DOT, PERCENT);
    lemma_not_in_joined(octets, DOT, CLOSING_BRACKET);
    lemma_fields_of_joined(octets, DOT);
    assert forall|i: int| 0 <= i < 4 implies is_octet(#[trigger] octets[i]) by {
        lemma_digits_of(numbers[i]);
        assert forall|j: int| 0 <= j < octets[i].len() implies is_digit(#[trigger] octets[i][j]) by {
            assert(is_digit(digits_of(numbers[i])[j]));
        }
        assert(numbers[i] <= 255);
    }
    assert(is_ipv4(dotted));
    assert(dotted.len() > octets[0].len());
    let place = octets[0].len() as int;
    assert(dotted[place] == DOT);
    assert(!is_group(dotted)) by {
        assert(!is_hex_digit(dotted[place]));
    }
    assert forall|i: int| 0 <= i < parts.len() implies is_part(#[trigger] parts[i]) by {
        if i < groups.len() {
            assert(parts[i] == groups[i]);
            assert(is_short_hex(groups[i]));
        }
    }
    lemma_joined_parts(parts);
    lemma_no_gap(address);
    assert forall|i: int| 0 <= i < parts.len() - 1 implies is_group(#[trigger] parts[i]) by {
        assert(parts[i] == groups[i]);
        assert(is_short_hex(groups[i]));
        assert forall|j: int| 0 <= j < parts[i].len() implies is_hex_digit(
            #[trigger] parts[i][j],
        ) by {
            assert(groups[i][j] == parts[i][j]);
        }
    }
    assert(group_count(address, true) == Some(groups.len() + 2int));
    lemma_bracketed(address, port);
}

/// An address of groups of hexadecimal digits in brackets, with a port, is accepted if,
/// and only if, there are eight groups and the port fits into two bytes.
pub proof fn law_bracketed_addresses(groups: Seq<Seq<u8>>, port: nat)
    requires
        groups.len() > 0,
        forall|i: int| 0 <= i < groups.len() ==> is_short_hex(#[trigger] groups[i]),
    ensures
        is_socket_address(
            seq![91u8] + joined_by(groups, 58) + seq![93u8, 58u8] + digits_of(port),
        ) == (groups.len() == 8 && port <= 65535),
{
    let address = joined_by(groups, COLON);
    lemma_joined_groups(groups);
    lemma_no_gap(address);
    lemma_group_count(groups, true);
    lemma_bracketed(address, port);
}

/// Two colons in a row stand for the groups that are left out, of which there is at least
/// one.
pub proof fn law_groups_can_be_left_out(before: Seq<Seq<u8>>, after: Seq<Seq<u8>>, port: nat)
    requires
        forall|i: int| 0 <= i < before.len() ==> is_short_hex(#[trigger] before[i]),
        forall|i: int| 0 <= i < after.len() ==> is_short_hex(#[trigger] after[i]),
    ensures
        is_socket_address(
            seq![91u8] + (joined_by(before, 58) + seq![58u8, 58u8] + joined_by(after, 58)) + seq![
                93u8,
                58u8,
            ] + digits_of(port),
        ) == (before.len() + after.len() < 8 && port <= 65535),
{
    let front = joined_by(before, COLON);
    let back = joined_by(after, COLON);
    let address = front + seq![58u8, 58u8] + back;
    if before.len() > 0 {
        lemma_joined_groups(before);
    }
    if after.len() > 0 {
        lemma_joined_groups(after);
    }
    assert forall|k: int| 0 <= k < front.len() implies !(#[trigger] address[k] == COLON
        && address[k + 1] == COLON) by {
        assert(address[k] == front[k]);
        if k + 1 < front.len() {
            assert(address[k + 1] == front[k + 1]);
        } else {
            assert(front[k] == front.last());
        }
    }
    lemma_first_gap_is(address, front.len() as int);
    assert(address.take(front.len() as int) =~= front);
    assert(address.skip(front.len() + 2int) =~= back);
    lemma_group_count(before, false);
    lemma_group_count(after, true);
    assert forall|j: int| 0 <= j < address.len() implies #[trigger] address[j] != PERCENT
        && address[j] != CLOSING_BRACKET by {
        if j < front.len() {
            assert(address[j] == front[j]);
        } else if j >= front.len() + 2 {
            assert(address[j] == back[j - front.len() - 2]);
        }
    }
    lemma_bracketed(address, port);
}

} // verus!

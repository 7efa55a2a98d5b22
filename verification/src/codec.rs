//! Bidirectional codec for the upstream line grammar. The outbound
//! (gateway to upstream) and inbound (upstream to gateway) encodings are
//! asymmetric by design: subscription changes are sent as `MT+`/`MT-`
//! lines but received as `+`/`-` marks inside the head segment.
use crate::message::{Direction, WiMessage, WiMessageType};
use crate::numfmt::{
    dec_digits, digits_to_val, digits_val, extract_digits, int_str, is_digit,
    lemma_dec_digits_all_digits, lemma_digits_val_dec_digits, lemma_spec_digits_of_digits,
    push_dec_u64, push_int_i64, spec_digits,
};
use vstd::prelude::*;
use vstd::string::StringExecFns;

verus! {

/// Why an inbound line or action segment was refused. The offending unit
/// is dropped and processing continues; nothing here is fatal.
#[derive(Clone, Copy, Debug, PartialEq, Eq, Structural)]
pub enum DecodeError {
    /// The action segment was empty.
    EmptyAction,
    /// The action segment opened with a character that is no known opcode.
    UnknownOpcode(char),
    /// The digit run of an action segment was missing or out of range.
    BadNumber,
    /// The digit run of the head segment was missing or too large for an
    /// address.
    BadAddress,
    /// The line had a head segment but no action segment after the
    /// delimiter.
    MissingAction,
}

/// Wire marker of an address: `S` (short) below 128, `L` (long) from 128.
pub open spec fn marker_char(addr: int) -> char {
    if addr < 128 { 'S' } else { 'L' }
}

/// The outbound action segment of one message. `Time` has no outbound
/// action: it is only ever received.
pub open spec fn encoded_action(t: WiMessageType) -> Seq<char> {
    match t {
        WiMessageType::AddAddress => seq!['+'],
        WiMessageType::RemoveAddress => seq!['-'],
        WiMessageType::Velocity(v) => seq!['V'] + int_str(v as int),
        WiMessageType::FunctionPressed(f) => seq!['F', '1'] + dec_digits(f as nat),
        WiMessageType::FunctionReleased(f) => seq!['F', '0'] + dec_digits(f as nat),
        WiMessageType::Direction(d) => if d == Direction::Reverse {
            seq!['R', '0']
        } else {
            seq!['R', '1']
        },
        WiMessageType::Time(_) => Seq::empty(),
    }
}

/// The full outbound line for one message: subscription changes repeat
/// the marked address on both sides of the delimiter, every other message
/// puts the marked address in the head and the action after the
/// delimiter.
pub open spec fn encoded_line(m: WiMessage) -> Seq<char> {
    let mk = seq![marker_char(m.address as int)];
    let ad = int_str(m.address as int);
    if m.message_type == WiMessageType::AddAddress || m.message_type == WiMessageType::RemoveAddress {
        seq!['M', 'T'] + encoded_action(m.message_type) + mk + ad + seq!['<', ';', '>'] + mk + ad
    } else {
        seq!['M', 'T', 'A'] + mk + ad + seq!['<', ';', '>'] + encoded_action(m.message_type)
    }
}

/// `p` opens `s`.
pub open spec fn seq_starts_with(s: Seq<char>, p: Seq<char>) -> bool {
    s.len() >= p.len() && s.subrange(0, p.len() as int) == p
}

/// The three-character segment delimiter `<;>` stands at position `i`.
pub open spec fn delim_at(s: Seq<char>, i: int) -> bool {
    0 <= i && i + 3 <= s.len() && s[i] == '<' && s[i + 1] == ';' && s[i + 2] == '>'
}

/// Position of the first delimiter at or after `i`, or `s.len()` when
/// none follows.
pub open spec fn first_delim_from(s: Seq<char>, i: int) -> int
    recommends
        0 <= i <= s.len(),
    decreases s.len() - i when 0 <= i <= s.len()
{
    if i + 3 > s.len() {
        s.len() as int
    } else if delim_at(s, i) {
        i
    } else {
        first_delim_from(s, i + 1)
    }
}

/// A roster, turnout or route status line, irrelevant to throttle
/// fan-out: it is discarded without producing a message.
pub open spec fn spec_is_status_line(s: Seq<char>) -> bool {
    ||| seq_starts_with(s, seq!['P', 'T', 'A'])
    ||| seq_starts_with(s, seq!['P', 'T', 'L'])
    ||| seq_starts_with(s, seq!['R', 'C', 'D'])
    ||| seq_starts_with(s, seq!['P', 'T', 'T'])
    ||| seq_starts_with(s, seq!['P', 'R', 'T'])
    ||| seq_starts_with(s, seq!['P', 'R', 'L'])
    ||| seq_starts_with(s, seq!['R', 'L'])
}

/// Meaning of an inbound action segment: the opcode is its first
/// character, the payload is the digit run of the whole segment, and a
/// `-` anywhere makes a velocity negative.
pub open spec fn spec_parse_action(s: Seq<char>) -> Result<WiMessageType, DecodeError> {
    if s.len() == 0 {
        Err(DecodeError::EmptyAction)
    } else {
        let digits = spec_digits(s);
        if s[0] == 'V' {
            if digits.len() == 0 || digits_val(digits) > 32767 {
                Err(DecodeError::BadNumber)
            } else if s.contains('-') {
                Ok(WiMessageType::Velocity((-(digits_val(digits) as int)) as i16))
            } else {
                Ok(WiMessageType::Velocity(digits_val(digits) as i16))
            }
        } else if s[0] == 'F' {
            if digits.len() <= 1 || digits_val(digits.skip(1)) > 255 {
                Err(DecodeError::BadNumber)
            } else if digits[0] == '1' {
                Ok(WiMessageType::FunctionPressed(digits_val(digits.skip(1)) as u8))
            } else {
                Ok(WiMessageType::FunctionReleased(digits_val(digits.skip(1)) as u8))
            }
        } else if s[0] == 'R' {
            if digits == seq!['0'] {
                Ok(WiMessageType::Direction(Direction::Reverse))
            } else {
                Ok(WiMessageType::Direction(Direction::Forward))
            }
        } else {
            Err(DecodeError::UnknownOpcode(s[0]))
        }
    }
}

/// Meaning of an inbound line. The head segment is everything before the
/// first delimiter. A `-` or `+` in the head makes the line a
/// subscription change; a `PFT` prefix makes it a fast-clock tick
/// addressed to nobody; otherwise the head's digit run is the address
/// and the second segment carries the action.
pub open spec fn spec_parse_line(s: Seq<char>) -> Result<WiMessage, DecodeError> {
    let fd = first_delim_from(s, 0);
    let head = s.subrange(0, fd);
    let head_digits = spec_digits(head);
    if head.contains('-') || head.contains('+') {
        if head_digits.len() == 0 || digits_val(head_digits) > 0x7fff_ffff {
            Err(DecodeError::BadAddress)
        } else {
            let t = if head.contains('-') {
                WiMessageType::RemoveAddress
            } else {
                WiMessageType::AddAddress
            };
            Ok(WiMessage { message_type: t, address: digits_val(head_digits) as i32 })
        }
    } else if seq_starts_with(s, seq!['P', 'F', 'T']) {
        if head_digits.len() == 0 || digits_val(head_digits) > 0x7fff_ffff_ffff_ffff {
            Err(DecodeError::BadNumber)
        } else {
            Ok(WiMessage {
                message_type: WiMessageType::Time(digits_val(head_digits) as i64),
                address: 0,
            })
        }
    } else if head_digits.len() == 0 || digits_val(head_digits) > 0x7fff_ffff {
        Err(DecodeError::BadAddress)
    } else if fd == s.len() {
        Err(DecodeError::MissingAction)
    } else {
        let action = s.subrange(fd + 3, first_delim_from(s, fd + 3));
        match spec_parse_action(action) {
            Ok(t) => Ok(WiMessage { message_type: t, address: digits_val(head_digits) as i32 }),
            Err(e) => Err(e),
        }
    }
}

/// The first-delimiter position is a real delimiter whenever it is
/// short of the length.
proof fn lemma_first_delim_at(s: Seq<char>, i: int)
    requires
        0 <= i <= s.len(),
    ensures
        i <= first_delim_from(s, i) <= s.len(),
        first_delim_from(s, i) < s.len() ==> delim_at(s, first_delim_from(s, i)),
    decreases s.len() - i,
{
    if i + 3 > s.len() {
    } else if delim_at(s, i) {
    } else {
        lemma_first_delim_at(s, i + 1);
    }
}

/// Whether `s` holds the character `c` anywhere.
fn str_contains_char(s: &str, c: char) -> (r: bool)
    ensures
        r == s@.contains(c),
{
    let len: usize = s.unicode_len();
    let mut i: usize = 0;
    while i < len
        invariant
            i <= len,
            len == s@.len(),
            forall|j: int| 0 <= j < i ==> s@[j] != c,
        decreases len - i,
    {
        if s.get_char(i) == c {
            proof {
                assert(s@[i as int] == c);
            }
            return true;
        }
        i = i + 1;
    }
    false
}

/// Position of the first delimiter at or after `start`, or the length of
/// `s` when none follows.
fn find_delim(s: &str, start: usize) -> (r: usize)
    requires
        start <= s@.len(),
    ensures
        r == first_delim_from(s@, start as int),
        start <= r <= s@.len(),
{
    let len: usize = s.unicode_len();
    let mut i: usize = start;
    while len - i >= 3
        invariant
            start <= i <= len,
            len == s@.len(),
            first_delim_from(s@, start as int) == first_delim_from(s@, i as int),
        decreases len - i,
    {
        if s.get_char(i) == '<' && s.get_char(i + 1) == ';' && s.get_char(i + 2) == '>' {
            proof {
                assert(delim_at(s@, i as int));
                assert(first_delim_from(s@, i as int) == i);
            }
            return i;
        }
        proof {
            assert(!delim_at(s@, i as int));
            assert(first_delim_from(s@, i as int) == first_delim_from(s@, i + 1 as int));
        }
        i = i + 1;
    }
    proof {
        assert(first_delim_from(s@, i as int) == s@.len());
    }
    len
}

/// Whether `s` opens with the two-character prefix `a`, `b`.
fn has_prefix2(s: &str, a: char, b: char) -> (r: bool)
    ensures
        r == seq_starts_with(s@, seq![a, b]),
{
    let len: usize = s.unicode_len();
    if len < 2 {
        proof {
            assert(!seq_starts_with(s@, seq![a, b]));
        }
        return false;
    }
    let r = s.get_char(0) == a && s.get_char(1) == b;
    proof {
        assert(s@.subrange(0, 2) =~= seq![s@[0], s@[1]]);
        if r {
            assert(s@.subrange(0, 2) =~= seq![a, b]);
        } else {
            assert(s@.subrange(0, 2) != seq![a, b]);
        }
    }
    r
}

/// Whether `s` opens with the three-character prefix `a`, `b`, `c`.
fn has_prefix3(s: &str, a: char, b: char, c: char) -> (r: bool)
    ensures
        r == seq_starts_with(s@, seq![a, b, c]),
{
    let len: usize = s.unicode_len();
    if len < 3 {
        proof {
            assert(!seq_starts_with(s@, seq![a, b, c]));
        }
        return false;
    }
    let r = s.get_char(0) == a && s.get_char(1) == b && s.get_char(2) == c;
    proof {
        assert(s@.subrange(0, 3) =~= seq![s@[0], s@[1], s@[2]]);
        if r {
            assert(s@.subrange(0, 3) =~= seq![a, b, c]);
        } else {
            assert(s@.subrange(0, 3) != seq![a, b, c]);
        }
    }
    r
}

/// Whether an inbound line is a roster/turnout/route status line that
/// the gateway discards without producing a message.
pub fn is_status_line(s: &str) -> (r: bool)
    ensures
        r == spec_is_status_line(s@),
{
    has_prefix3(s, 'P', 'T', 'A') || has_prefix3(s, 'P', 'T', 'L')
        || has_prefix3(s, 'R', 'C', 'D') || has_prefix3(s, 'P', 'T', 'T')
        || has_prefix3(s, 'P', 'R', 'T') || has_prefix3(s, 'P', 'R', 'L')
        || has_prefix2(s, 'R', 'L')
}

impl WiMessageType {
    /// Reads one inbound action segment.
    pub fn decode(s: &str) -> (r: Result<Self, DecodeError>)
        ensures
            r == spec_parse_action(s@),
    {
        let len: usize = s.unicode_len();
        if len == 0 {
            return Err(DecodeError::EmptyAction);
        }
        let first = s.get_char(0);
        let digits = extract_digits(s);
        if first == 'V' {
            match digits_to_val(&digits, 32767) {
                None => Err(DecodeError::BadNumber),
                Some(v) => {
                    let mag: i16 = v as i16;
                    if str_contains_char(s, '-') {
                        Ok(WiMessageType::Velocity(-mag))
                    } else {
                        Ok(WiMessageType::Velocity(mag))
                    }
                }
            }
        } else if first == 'F' {
            if digits.len() <= 1 {
                return Err(DecodeError::BadNumber);
            }
            let pressed = digits[0] == '1';
            let mut rest: Vec<char> = Vec::new();
            let mut i: usize = 1;
            while i < digits.len()
                invariant
                    1 <= i <= digits@.len(),
                    rest@ == digits@.subrange(1, i as int),
                decreases digits@.len() - i,
            {
                rest.push(digits[i]);
                proof {
                    assert(digits@.subrange(1, i + 1 as int) =~= digits@.subrange(
                        1,
                        i as int,
                    ).push(digits@[i as int]));
                }
                i = i + 1;
            }
            proof {
                assert(rest@ =~= digits@.skip(1));
            }
            match digits_to_val(&rest, 255) {
                None => Err(DecodeError::BadNumber),
                Some(v) => {
                    if pressed {
                        Ok(WiMessageType::FunctionPressed(v as u8))
                    } else {
                        Ok(WiMessageType::FunctionReleased(v as u8))
                    }
                }
            }
        } else if first == 'R' {
            if digits.len() == 1 && digits[0] == '0' {
                proof {
                    assert(digits@ =~= seq!['0']);
                }
                Ok(WiMessageType::Direction(Direction::Reverse))
            } else {
                proof {
                    assert(digits@ != seq!['0']);
                }
                Ok(WiMessageType::Direction(Direction::Forward))
            }
        } else {
            Err(DecodeError::UnknownOpcode(first))
        }
    }
}

impl WiMessage {
    /// Reads one inbound line.
    pub fn decode(s: &str) -> (r: Result<Self, DecodeError>)
        ensures
            r == spec_parse_line(s@),
    {
        let len: usize = s.unicode_len();
        let fd = find_delim(s, 0);
        proof {
            lemma_first_delim_at(s@, 0);
        }
        let head = s.substring_char(0, fd);
        let head_digits = extract_digits(head);
        let has_minus = str_contains_char(head, '-');
        let has_plus = str_contains_char(head, '+');
        if has_minus || has_plus {
            match digits_to_val(&head_digits, 0x7fff_ffff) {
                None => Err(DecodeError::BadAddress),
                Some(a) => {
                    let t = if has_minus {
                        WiMessageType::RemoveAddress
                    } else {
                        WiMessageType::AddAddress
                    };
                    Ok(WiMessage { message_type: t, address: a as i32 })
                }
            }
        } else if has_prefix3(s, 'P', 'F', 'T') {
            match digits_to_val(&head_digits, 0x7fff_ffff_ffff_ffff) {
                None => Err(DecodeError::BadNumber),
                Some(t) => Ok(WiMessage { message_type: WiMessageType::Time(t as i64), address: 0 }),
            }
        } else {
            match digits_to_val(&head_digits, 0x7fff_ffff) {
                None => Err(DecodeError::BadAddress),
                Some(a) => {
                    if fd == len {
                        Err(DecodeError::MissingAction)
                    } else {
                        let se = find_delim(s, fd + 3);
                        let action = s.substring_char(fd + 3, se);
                        match WiMessageType::decode(action) {
                            Ok(t) => Ok(WiMessage { message_type: t, address: a as i32 }),
                            Err(e) => Err(e),
                        }
                    }
                }
            }
        }
    }
}

/// The digit run of a concatenation is the concatenation of the digit
/// runs.
proof fn lemma_spec_digits_add(a: Seq<char>, b: Seq<char>)
    ensures
        spec_digits(a + b) == spec_digits(a) + spec_digits(b),
    decreases b.len(),
{
    if b.len() == 0 {
        assert(a + b =~= a);
        assert(spec_digits(a) + spec_digits(b) =~= spec_digits(a));
    } else {
        lemma_spec_digits_add(a, b.drop_last());
        assert((a + b).drop_last() =~= a + b.drop_last());
        assert((a + b).last() == b.last());
        assert(spec_digits(a + b) =~= spec_digits(a) + spec_digits(b));
    }
}

/// The digit run of a single character.
proof fn lemma_spec_digits_single(c: char)
    ensures
        spec_digits(seq![c]) == if is_digit(c) { seq![c] } else { Seq::<char>::empty() },
{
    assert(seq![c].drop_last() =~= Seq::<char>::empty());
    assert(spec_digits(Seq::<char>::empty()) == Seq::<char>::empty());
    assert(seq![c].last() == c);
    if is_digit(c) {
        assert(spec_digits(seq![c]) =~= seq![c]);
    } else {
        assert(spec_digits(seq![c]) =~= Seq::<char>::empty());
    }
}

/// Law: the inbound decoder undoes the outbound action encoding for every
/// throttle action — velocity, function press and release, and
/// direction. It deliberately does not hold for `AddAddress` and
/// `RemoveAddress`, whose outbound and inbound encodings are asymmetric,
/// nor for `Time`, which has no outbound action segment; a velocity must
/// be above `i16::MIN`, whose magnitude no velocity digit run can carry.
pub proof fn lemma_action_round_trip(t: WiMessageType)
    requires
        t is Velocity || t is FunctionPressed || t is FunctionReleased || t is Direction,
        t matches WiMessageType::Velocity(v) ==> v != i16::MIN,
    ensures
        spec_parse_action(encoded_action(t)) == Ok::<WiMessageType, DecodeError>(t),
{
    match t {
        WiMessageType::Velocity(v) => {
            let mag: nat = if v < 0 { (-(v as int)) as nat } else { v as nat };
            lemma_dec_digits_all_digits(mag);
            lemma_digits_val_dec_digits(mag);
            lemma_spec_digits_of_digits(dec_digits(mag));
            let s = encoded_action(t);
            if v < 0 {
                assert(int_str(v as int) == seq!['-'] + dec_digits(mag));
                assert(s =~= seq!['V', '-'] + dec_digits(mag));
                assert(seq!['V', '-'] =~= seq!['V'] + seq!['-']);
                lemma_spec_digits_add(seq!['V'] + seq!['-'], dec_digits(mag));
                lemma_spec_digits_add(seq!['V'], seq!['-']);
                lemma_spec_digits_single('V');
                lemma_spec_digits_single('-');
                assert(spec_digits(s) =~= dec_digits(mag));
                assert(s[1] == '-');
                assert(s.contains('-'));
                assert(s[0] == 'V');
                assert(mag <= 32767);
                assert(spec_parse_action(s) == Ok::<WiMessageType, DecodeError>(
                    WiMessageType::Velocity((-(mag as int)) as i16),
                ));
                assert((-(mag as int)) as i16 == v);
            } else {
                assert(s =~= seq!['V'] + dec_digits(mag));
                lemma_spec_digits_add(seq!['V'], dec_digits(mag));
                lemma_spec_digits_single('V');
                assert(spec_digits(s) =~= dec_digits(mag));
                assert(!s.contains('-')) by {
                    if s.contains('-') {
                        let i = choose|i: int| 0 <= i < s.len() && s[i] == '-';
                        if i > 0 {
                            assert(is_digit(dec_digits(mag)[i - 1]));
                        }
                    }
                }
                assert(s[0] == 'V');
                assert(mag <= 32767);
                assert(spec_parse_action(s) == Ok::<WiMessageType, DecodeError>(
                    WiMessageType::Velocity(mag as i16),
                ));
            }
        }
        WiMessageType::FunctionPressed(f) => {
            lemma_function_round_trip_shape('1', f);
            assert(spec_digits(encoded_action(t))[0] == '1');
        }
        WiMessageType::FunctionReleased(f) => {
            lemma_function_round_trip_shape('0', f);
            assert(spec_digits(encoded_action(t))[0] == '0');
        }
        WiMessageType::Direction(d) => {
            let s = encoded_action(t);
            if d == Direction::Reverse {
                assert(s =~= seq!['R'] + seq!['0']);
                lemma_spec_digits_add(seq!['R'], seq!['0']);
                lemma_spec_digits_single('R');
                lemma_spec_digits_single('0');
                assert(spec_digits(s) =~= seq!['0']);
            } else {
                assert(s =~= seq!['R'] + seq!['1']);
                lemma_spec_digits_add(seq!['R'], seq!['1']);
                lemma_spec_digits_single('R');
                lemma_spec_digits_single('1');
                assert(spec_digits(s) =~= seq!['1']);
                assert(spec_digits(s) != seq!['0']) by {
                    assert(spec_digits(s)[0] == '1');
                    assert(seq!['0'][0] == '0');
                }
            }
        }
        _ => {}
    }
}

/// Skipping characters that cannot open a delimiter does not move the
/// first-delimiter position.
proof fn lemma_first_delim_skip(s: Seq<char>, j: int)
    requires
        0 <= j <= s.len(),
        forall|k: int| 0 <= k < j ==> s[k] != '<',
    ensures
        first_delim_from(s, 0) == first_delim_from(s, j),
    decreases j,
{
    if j > 0 {
        lemma_first_delim_skip(s, j - 1);
        if j - 1 + 3 > s.len() {
            assert(first_delim_from(s, j - 1) == s.len());
            assert(first_delim_from(s, j) == s.len());
        } else {
            assert(!delim_at(s, j - 1));
            assert(first_delim_from(s, j - 1) == first_delim_from(s, j));
        }
    }
}

/// A tail without `<` holds no delimiter.
proof fn lemma_first_delim_none(s: Seq<char>, j: int)
    requires
        0 <= j <= s.len(),
        forall|k: int| j <= k < s.len() ==> s[k] != '<',
    ensures
        first_delim_from(s, j) == s.len(),
    decreases s.len() - j,
{
    if j + 3 <= s.len() {
        assert(!delim_at(s, j));
        lemma_first_delim_none(s, j + 1);
    }
}

/// No character of a throttle action's outbound segment can open a
/// delimiter.
proof fn lemma_action_free_of_lt(t: WiMessageType)
    requires
        t is Velocity || t is FunctionPressed || t is FunctionReleased || t is Direction,
    ensures
        forall|i: int| 0 <= i < encoded_action(t).len() ==> (#[trigger] encoded_action(t)[i])
            != '<',
{
    let a = encoded_action(t);
    match t {
        WiMessageType::Velocity(v) => {
            let mag: nat = if v < 0 { (-(v as int)) as nat } else { v as nat };
            lemma_dec_digits_all_digits(mag);
            assert forall|i: int| 0 <= i < a.len() implies (#[trigger] a[i]) != '<' by {
                if v < 0 {
                    assert(a =~= seq!['V', '-'] + dec_digits(mag));
                    if i >= 2 {
                        assert(is_digit(dec_digits(mag)[i - 2]));
                    }
                } else {
                    assert(a =~= seq!['V'] + dec_digits(mag));
                    if i >= 1 {
                        assert(is_digit(dec_digits(mag)[i - 1]));
                    }
                }
            }
        }
        WiMessageType::FunctionPressed(f) => {
            lemma_dec_digits_all_digits(f as nat);
            assert forall|i: int| 0 <= i < a.len() implies (#[trigger] a[i]) != '<' by {
                if i >= 2 {
                    assert(is_digit(dec_digits(f as nat)[i - 2]));
                }
            }
        }
        WiMessageType::FunctionReleased(f) => {
            lemma_dec_digits_all_digits(f as nat);
            assert forall|i: int| 0 <= i < a.len() implies (#[trigger] a[i]) != '<' by {
                if i >= 2 {
                    assert(is_digit(dec_digits(f as nat)[i - 2]));
                }
            }
        }
        _ => {}
    }
}

/// Law: the inbound decoder undoes the outbound line encoding for every
/// throttle action at a non-negative address — the whole line, head and
/// action segment together, decodes back to the message it was written
/// from. A negative address would put a `-` into the head, which the
/// inbound grammar reads as a subscription mark; the subscription
/// changes and `Time` stay excluded as in the action-level law.
pub proof fn lemma_line_round_trip(m: WiMessage)
    requires
        m.message_type is Velocity || m.message_type is FunctionPressed || m.message_type
            is FunctionReleased || m.message_type is Direction,
        m.message_type matches WiMessageType::Velocity(v) ==> v != i16::MIN,
        m.address >= 0,
    ensures
        spec_parse_line(encoded_line(m)) == Ok::<WiMessage, DecodeError>(m),
{
    let s = encoded_line(m);
    let mk = marker_char(m.address as int);
    let ad = dec_digits(m.address as nat);
    let action = encoded_action(m.message_type);
    lemma_dec_digits_all_digits(m.address as nat);
    lemma_digits_val_dec_digits(m.address as nat);
    assert(s =~= seq!['M', 'T', 'A', mk] + ad + seq!['<', ';', '>'] + action);
    let pos = 4 + ad.len() as int;
    assert(delim_at(s, pos));
    assert forall|k: int| 0 <= k < pos implies s[k] != '<' by {
        if k >= 4 {
            assert(is_digit(ad[k - 4]));
        }
    }
    lemma_first_delim_skip(s, pos);
    assert(first_delim_from(s, 0) == pos);
    let head = s.subrange(0, pos);
    assert(head =~= seq!['M', 'T', 'A', mk] + ad);
    assert(spec_digits(head) =~= ad) by {
        lemma_spec_digits_add(seq!['M', 'T', 'A', mk], ad);
        lemma_spec_digits_of_digits(ad);
        assert(seq!['M', 'T', 'A', mk] =~= seq!['M', 'T', 'A'] + seq![mk]);
        lemma_spec_digits_add(seq!['M', 'T', 'A'], seq![mk]);
        lemma_spec_digits_single(mk);
        assert(seq!['M', 'T', 'A'] =~= seq!['M', 'T'] + seq!['A']);
        lemma_spec_digits_add(seq!['M', 'T'], seq!['A']);
        lemma_spec_digits_single('A');
        assert(seq!['M', 'T'] =~= seq!['M'] + seq!['T']);
        lemma_spec_digits_add(seq!['M'], seq!['T']);
        lemma_spec_digits_single('M');
        lemma_spec_digits_single('T');
    }
    assert(!head.contains('-')) by {
        if head.contains('-') {
            let k = choose|k: int| 0 <= k < head.len() && head[k] == '-';
            if k >= 4 {
                assert(is_digit(ad[k - 4]));
            }
        }
    }
    assert(!head.contains('+')) by {
        if head.contains('+') {
            let k = choose|k: int| 0 <= k < head.len() && head[k] == '+';
            if k >= 4 {
                assert(is_digit(ad[k - 4]));
            }
        }
    }
    assert(!seq_starts_with(s, seq!['P', 'F', 'T'])) by {
        assert(s[0] == 'M');
        if seq_starts_with(s, seq!['P', 'F', 'T']) {
            assert(s.subrange(0, 3)[0] == 'P');
        }
    }
    assert(digits_val(spec_digits(head)) == m.address as nat);
    assert(pos < s.len());
    assert forall|k: int| pos + 3 <= k < s.len() implies s[k] != '<' by {
        lemma_action_free_of_lt(m.message_type);
        assert(s[k] == action[k - (pos + 3)]);
    }
    lemma_first_delim_none(s, pos + 3);
    assert(s.subrange(pos + 3, s.len() as int) =~= action);
    lemma_action_round_trip(m.message_type);
}

/// Shared shape of the two function-action segments: an `F`, the flag
/// digit, then the function number's digits.
proof fn lemma_function_round_trip_shape(flag: char, f: u8)
    requires
        flag == '0' || flag == '1',
    ensures
        spec_digits(seq!['F', flag] + dec_digits(f as nat)) == seq![flag] + dec_digits(f as nat),
        digits_val((seq![flag] + dec_digits(f as nat)).skip(1)) == f as nat,
        (seq![flag] + dec_digits(f as nat)).len() >= 2,
        (seq!['F', flag] + dec_digits(f as nat))[0] == 'F',
{
    lemma_dec_digits_all_digits(f as nat);
    lemma_digits_val_dec_digits(f as nat);
    lemma_spec_digits_of_digits(dec_digits(f as nat));
    assert(seq!['F', flag] =~= seq!['F'] + seq![flag]);
    lemma_spec_digits_add(seq!['F'] + seq![flag], dec_digits(f as nat));
    lemma_spec_digits_add(seq!['F'], seq![flag]);
    lemma_spec_digits_single('F');
    lemma_spec_digits_single(flag);
    assert(spec_digits(seq!['F', flag] + dec_digits(f as nat)) =~= seq![flag] + dec_digits(
        f as nat,
    ));
    assert((seq![flag] + dec_digits(f as nat)).skip(1) =~= dec_digits(f as nat));
}

impl Direction {
    /// The two-character direction action segment (`R0` reverse,
    /// `R1` forward), used both as outbound action and inside envelopes.
    pub fn encode(&self) -> (r: String)
        ensures
            r@ == encoded_action(WiMessageType::Direction(*self)),
    {
        proof {
            reveal_strlit("R0");
            reveal_strlit("R1");
        }
        let r = match self {
            Direction::Reverse => String::from_str("R0"),
            Direction::Forward => String::from_str("R1"),
        };
        proof {
            assert(r@ =~= encoded_action(WiMessageType::Direction(*self)));
        }
        r
    }
}

impl WiMessageType {
    /// The outbound action segment of this message type.
    pub fn encode(&self) -> (r: String)
        ensures
            r@ == encoded_action(*self),
    {
        match self {
            WiMessageType::AddAddress => {
                proof {
                    reveal_strlit("+");
                }
                let r = String::from_str("+");
                proof {
                    assert(r@ =~= encoded_action(*self));
                }
                r
            }
            WiMessageType::RemoveAddress => {
                proof {
                    reveal_strlit("-");
                }
                let r = String::from_str("-");
                proof {
                    assert(r@ =~= encoded_action(*self));
                }
                r
            }
            WiMessageType::Velocity(v) => {
                proof {
                    reveal_strlit("V");
                }
                let mut r = String::from_str("V");
                push_int_i64(&mut r, *v as i64);
                proof {
                    assert(r@ =~= encoded_action(*self));
                }
                r
            }
            WiMessageType::FunctionPressed(f) => {
                proof {
                    reveal_strlit("F1");
                }
                let mut r = String::from_str("F1");
                push_dec_u64(&mut r, *f as u64);
                proof {
                    assert(r@ =~= encoded_action(*self));
                }
                r
            }
            WiMessageType::FunctionReleased(f) => {
                proof {
                    reveal_strlit("F0");
                }
                let mut r = String::from_str("F0");
                push_dec_u64(&mut r, *f as u64);
                proof {
                    assert(r@ =~= encoded_action(*self));
                }
                r
            }
            WiMessageType::Direction(d) => d.encode(),
            WiMessageType::Time(_) => String::new(),
        }
    }
}

impl WiMessage {
    /// The outbound line for this message, exactly as written to the
    /// upstream link.
    pub fn encode(&self) -> (r: String)
        ensures
            r@ == encoded_line(*self),
    {
        proof {
            reveal_strlit("MT");
            reveal_strlit("MTA");
            reveal_strlit("S");
            reveal_strlit("L");
            reveal_strlit("<;>");
        }
        let marker: &'static str = if self.address < 128 { "S" } else { "L" };
        proof {
            assert(marker@ =~= seq![marker_char(self.address as int)]);
        }
        if self.message_type.is_address() {
            let mut r = String::from_str("MT");
            let action = self.message_type.encode();
            r.append(action.as_str());
            r.append(marker);
            push_int_i64(&mut r, self.address as i64);
            r.append("<;>");
            r.append(marker);
            push_int_i64(&mut r, self.address as i64);
            proof {
                assert(r@ =~= encoded_line(*self));
            }
            r
        } else {
            let mut r = String::from_str("MTA");
            r.append(marker);
            push_int_i64(&mut r, self.address as i64);
            r.append("<;>");
            let action = self.message_type.encode();
            r.append(action.as_str());
            proof {
                assert(r@ =~= encoded_line(*self));
            }
            r
        }
    }
}

} // verus!

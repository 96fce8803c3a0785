//! The framed channel codec. A message travels as a 4-byte little-endian
//! length prefix followed by that many payload bytes; the payload is the
//! JSON text of one event or command. Encoding and decoding of the JSON
//! shapes is defined here character by character, together with the proof
//! that decoding undoes encoding.
use vstd::prelude::*;

use crate::tabs::{EventModel, TabAttributes, TabEvent, TabId, TabInfo, WindowId, opt_string_view};

verus! {

// ---------------------------------------------------------------------------
// Length-prefix framing
// ---------------------------------------------------------------------------
/// The four prefix bytes that announce a payload of `n` bytes, least
/// significant byte first.
pub open spec fn le_bytes32(n: u32) -> Seq<u8> {
    seq![
        (n & 0xff) as u8,
        ((n >> 8) & 0xff) as u8,
        ((n >> 16) & 0xff) as u8,
        ((n >> 24) & 0xff) as u8,
    ]
}

/// The payload length a 4-byte prefix announces.
pub open spec fn le_value32(b: Seq<u8>) -> u32
    recommends
        b.len() == 4,
{
    (b[0] + b[1] * 0x100 + b[2] * 0x10000 + b[3] * 0x1000000) as u32
}

/// Reading back the four prefix bytes yields the length they were built from.
pub proof fn lemma_le_round_trip(n: u32)
    ensures
        le_value32(le_bytes32(n)) == n,
{
    assert((n & 0xff) < 0x100) by (bit_vector);
    assert(((n >> 8) & 0xff) < 0x100) by (bit_vector);
    assert(((n >> 16) & 0xff) < 0x100) by (bit_vector);
    assert(((n >> 24) & 0xff) < 0x100) by (bit_vector);
    assert((n & 0xff) + ((n >> 8) & 0xff) * 0x100 + ((n >> 16) & 0xff) * 0x10000 + ((n >> 24)
        & 0xff) * 0x1000000 == n) by (bit_vector);
}

/// Wrap a payload in its frame: the 4-byte little-endian length prefix,
/// then the payload itself.
pub fn encode_frame(payload: &[u8]) -> (r: Vec<u8>)
    requires
        payload@.len() <= u32::MAX,
    ensures
        r@ == le_bytes32(payload@.len() as u32) + payload@,
{
    let n = payload.len() as u32;
    let mut r: Vec<u8> = Vec::new();
    r.push((n & 0xff) as u8);
    r.push(((n >> 8) & 0xff) as u8);
    r.push(((n >> 16) & 0xff) as u8);
    r.push(((n >> 24) & 0xff) as u8);
    r.extend_from_slice(payload);
    proof {
        assert(r@ =~= le_bytes32(n) + payload@);
    }
    r
}

/// Read the payload length announced by a complete 4-byte prefix.
pub fn parse_frame_len(prefix: &[u8]) -> (r: u32)
    requires
        prefix@.len() == 4,
    ensures
        r == le_value32(prefix@),
{
    let b0 = prefix[0] as u32;
    let b1 = prefix[1] as u32;
    let b2 = prefix[2] as u32;
    let b3 = prefix[3] as u32;
    b0 + b1 * 0x100 + b2 * 0x10000 + b3 * 0x1000000
}

// ---------------------------------------------------------------------------
// Decimal numbers
// ---------------------------------------------------------------------------
/// Is `c` one of the ten decimal digits?
pub open spec fn is_digit_char(c: char) -> bool {
    c == '0' || c == '1' || c == '2' || c == '3' || c == '4' || c == '5' || c == '6' || c == '7'
        || c == '8' || c == '9'
}

/// The digit character for a value below ten.
pub open spec fn digit_char(d: nat) -> char {
    if d == 0 {
        '0'
    } else if d == 1 {
        '1'
    } else if d == 2 {
        '2'
    } else if d == 3 {
        '3'
    } else if d == 4 {
        '4'
    } else if d == 5 {
        '5'
    } else if d == 6 {
        '6'
    } else if d == 7 {
        '7'
    } else if d == 8 {
        '8'
    } else {
        '9'
    }
}

/// The value of a digit character; ten for anything else.
pub open spec fn digit_val(c: char) -> nat {
    if c == '0' {
        0
    } else if c == '1' {
        1
    } else if c == '2' {
        2
    } else if c == '3' {
        3
    } else if c == '4' {
        4
    } else if c == '5' {
        5
    } else if c == '6' {
        6
    } else if c == '7' {
        7
    } else if c == '8' {
        8
    } else if c == '9' {
        9
    } else {
        10
    }
}

/// The usual decimal spelling of `n`: most significant digit first, no
/// leading zero except for the single digit of zero itself.
pub open spec fn dec_digits(n: nat) -> Seq<char>
    decreases n,
{
    if n < 10 {
        seq![digit_char(n)]
    } else {
        dec_digits(n / 10).push(digit_char(n % 10))
    }
}

/// Relies on std's String::push: it appends exactly the given character.
#[verifier::external_body]
fn push_char(s: &mut String, c: char)
    ensures
        final(s)@ == old(s)@.push(c),
{
    s.push(c);
}

/// The digit character of a value below ten, as an executable step.
fn digit_char_of(d: u64) -> (r: char)
    requires
        d < 10,
    ensures
        r == digit_char(d as nat),
{
    if d == 0 {
        '0'
    } else if d == 1 {
        '1'
    } else if d == 2 {
        '2'
    } else if d == 3 {
        '3'
    } else if d == 4 {
        '4'
    } else if d == 5 {
        '5'
    } else if d == 6 {
        '6'
    } else if d == 7 {
        '7'
    } else if d == 8 {
        '8'
    } else {
        '9'
    }
}

/// Append the decimal spelling of `n`.
fn push_decimal(out: &mut String, n: u64)
    ensures
        final(out)@ == old(out)@ + dec_digits(n as nat),
    decreases n,
{
    if n < 10 {
        let c = digit_char_of(n);
        push_char(out, c);
        proof {
            assert(out@ =~= old(out)@ + dec_digits(n as nat));
        }
    } else {
        proof {
            assert(n as nat / 10 < n as nat) by (nonlinear_arith)
                requires
                    n >= 10,
            ;
        }
        push_decimal(out, n / 10);
        let c = digit_char_of(n % 10);
        push_char(out, c);
        proof {
            assert(dec_digits(n as nat) == dec_digits(n as nat / 10).push(
                digit_char(n as nat % 10),
            ));
            assert(out@ =~= old(out)@ + dec_digits(n as nat));
        }
    }
}

// ---------------------------------------------------------------------------
// JSON strings
// ---------------------------------------------------------------------------
/// How one character appears inside a JSON string: a quote or backslash is
/// preceded by a backslash, everything else stands for itself.
pub open spec fn esc_char(c: char) -> Seq<char> {
    if c == '"' || c == '\\' {
        seq!['\\', c]
    } else {
        seq![c]
    }
}

/// A whole text with its quotes and backslashes escaped.
pub open spec fn json_escaped(s: Seq<char>) -> Seq<char>
    decreases s.len(),
{
    if s.len() == 0 {
        Seq::empty()
    } else {
        esc_char(s[0]) + json_escaped(s.drop_first())
    }
}

/// A JSON string literal: the escaped text between double quotes.
pub open spec fn json_string(s: Seq<char>) -> Seq<char> {
    seq!['"'] + json_escaped(s) + seq!['"']
}

/// Escaping distributes over concatenation.
pub proof fn lemma_escaped_append(a: Seq<char>, b: Seq<char>)
    ensures
        json_escaped(a + b) == json_escaped(a) + json_escaped(b),
    decreases a.len(),
{
    if a.len() == 0 {
        assert(a + b =~= b);
        assert(json_escaped(a) + json_escaped(b) =~= json_escaped(b));
    } else {
        assert((a + b).drop_first() =~= a.drop_first() + b);
        lemma_escaped_append(a.drop_first(), b);
        assert(esc_char(a[0]) + (json_escaped(a.drop_first()) + json_escaped(b)) =~= (esc_char(
            a[0],
        ) + json_escaped(a.drop_first())) + json_escaped(b));
    }
}

/// Append `v` as a JSON string literal, quotes and all.
fn push_json_string(out: &mut String, v: &str)
    ensures
        final(out)@ == old(out)@ + json_string(v@),
{
    push_char(out, '"');
    let n = v.unicode_len();
    let mut i: usize = 0;
    while i < n
        invariant
            n == v@.len(),
            0 <= i <= n,
            out@ == old(out)@ + seq!['"'] + json_escaped(v@.take(i as int)),
        decreases n - i,
    {
        let c = v.get_char(i);
        proof {
            assert(v@.take(i as int + 1) =~= v@.take(i as int) + seq![v@[i as int]]);
            lemma_escaped_append(v@.take(i as int), seq![v@[i as int]]);
            assert(seq![v@[i as int]].drop_first() =~= Seq::<char>::empty());
            assert(json_escaped(Seq::<char>::empty()) =~= Seq::<char>::empty());
            assert(json_escaped(seq![v@[i as int]]) =~= esc_char(v@[i as int]));
        }
        if c == '"' || c == '\\' {
            push_char(out, '\\');
            push_char(out, c);
            proof {
                assert(out@ =~= old(out)@ + seq!['"'] + json_escaped(v@.take(i as int + 1)));
            }
        } else {
            push_char(out, c);
            proof {
                assert(out@ =~= old(out)@ + seq!['"'] + json_escaped(v@.take(i as int + 1)));
            }
        }
        i = i + 1;
    }
    push_char(out, '"');
    proof {
        assert(v@.take(n as int) =~= v@);
        assert(out@ =~= old(out)@ + json_string(v@));
    }
}

// ---------------------------------------------------------------------------
// Commands and events as JSON texts
// ---------------------------------------------------------------------------
/// One outbound command to the extension. The window id is carried for the
/// wire shape but not used; an absent title preface is sent as null.
pub struct Command {
    pub action: String,
    pub tab_id: TabId,
    pub window_id: Option<WindowId>,
    pub window_title_preface: Option<String>,
    pub sequence_number: u64,
}

/// Mathematical model of a `Command`.
pub struct CommandModel {
    pub action: Seq<char>,
    pub tab_id: TabId,
    pub window_id: Option<WindowId>,
    pub window_title_preface: Option<Seq<char>>,
    pub sequence_number: u64,
}

impl View for Command {
    type V = CommandModel;

    open spec fn view(&self) -> CommandModel {
        CommandModel {
            action: self.action@,
            tab_id: self.tab_id,
            window_id: self.window_id,
            window_title_preface: opt_string_view(self.window_title_preface),
            sequence_number: self.sequence_number,
        }
    }
}

/// An optional string value: its JSON string literal, or null when absent.
pub open spec fn opt_str_json(v: Option<Seq<char>>) -> Seq<char> {
    match v {
        Some(s) => json_string(s),
        None => "null"@,
    }
}

/// An optional number value: its decimal spelling, or null when absent.
pub open spec fn opt_num_json(v: Option<u64>) -> Seq<char> {
    match v {
        Some(n) => dec_digits(n as nat),
        None => "null"@,
    }
}

/// A window id as the wire number, if present.
pub open spec fn num_of_window(v: Option<WindowId>) -> Option<u64> {
    match v {
        Some(w) => Some(w as u64),
        None => None,
    }
}

/// The second half of the event text: the per-tab attributes, sequence
/// number and error, and the closing brace.
pub open spec fn spec_encode_event_tail(m: EventModel) -> Seq<char> {
    ",\"title\":"@ + opt_str_json(m.title) + ",\"url\":"@ + opt_str_json(m.url)
        + ",\"window_id\":"@ + opt_num_json(num_of_window(m.window_id))
        + ",\"sequence_number\":"@ + opt_num_json(m.sequence_number) + ",\"error\":"@
        + opt_str_json(m.error) + "}"@
}

/// The JSON text of one inbound event: every key present, in a fixed
/// order, with absent values written as null.
pub open spec fn spec_encode_event(m: EventModel) -> Seq<char> {
    "{\"action\":"@ + json_string(m.action) + ",\"key\":"@ + opt_str_json(m.key)
        + ",\"tab_id\":"@ + dec_digits(m.tab_id as nat) + spec_encode_event_tail(m)
}

/// The JSON text of one outbound command: every key present, absent values
/// written as null.
pub open spec fn spec_encode_command(m: CommandModel) -> Seq<char> {
    "{\"action\":"@ + json_string(m.action) + ",\"tab_id\":"@ + dec_digits(m.tab_id as nat)
        + ",\"window_id\":"@ + (match m.window_id {
        Some(w) => dec_digits(w as nat),
        None => "null"@,
    }) + ",\"window_title_preface\":"@ + (match m.window_title_preface {
        Some(s) => json_string(s),
        None => "null"@,
    }) + ",\"sequence_number\":"@ + dec_digits(m.sequence_number as nat) + "}"@
}

// ---------------------------------------------------------------------------
// The canonical parser, at the specification level
// ---------------------------------------------------------------------------
/// The characters of `t` stand at position `i` of `s`.
pub open spec fn matches_at(s: Seq<char>, i: int, t: Seq<char>) -> bool {
    &&& 0 <= i
    &&& i + t.len() <= s.len()
    &&& forall|k: int| 0 <= k < t.len() ==> s[i + k] == t[k]
}

/// `t` is exactly the rest of `s` from position `i` on.
pub open spec fn suffix_at(s: Seq<char>, i: int, t: Seq<char>) -> bool {
    i + t.len() == s.len() && matches_at(s, i, t)
}

/// Expect the literal `lit` at position `i`: the position after it, or
/// nothing if the text differs.
pub open spec fn sp_lit(s: Seq<char>, i: int, lit: Seq<char>) -> Option<int> {
    if matches_at(s, i, lit) {
        Some(i + lit.len())
    } else {
        None
    }
}

/// Parse the body of a JSON string up to its closing quote, undoing the
/// escapes: the text denoted and the position after the closing quote.
pub open spec fn sp_str_body(s: Seq<char>, i: int) -> Option<(Seq<char>, int)>
    decreases s.len() - i,
{
    if i < 0 || i >= s.len() {
        None
    } else if s[i] == '"' {
        Some((Seq::empty(), i + 1))
    } else if s[i] == '\\' {
        if i + 1 < s.len() && (s[i + 1] == '"' || s[i + 1] == '\\') {
            match sp_str_body(s, i + 2) {
                Some(p) => Some((seq![s[i + 1]] + p.0, p.1)),
                None => None,
            }
        } else {
            None
        }
    } else {
        match sp_str_body(s, i + 1) {
            Some(p) => Some((seq![s[i]] + p.0, p.1)),
            None => None,
        }
    }
}

/// Parse a whole JSON string literal, opening quote included.
pub open spec fn sp_str_value(s: Seq<char>, i: int) -> Option<(Seq<char>, int)> {
    match sp_lit(s, i, "\""@) {
        Some(j) => sp_str_body(s, j),
        None => None,
    }
}

/// Consume decimal digits, accumulating their value onto `acc`; stops at
/// the first non-digit, fails if the value outgrows 64 bits.
pub open spec fn sp_digits(s: Seq<char>, i: int, acc: nat) -> Option<(u64, int)>
    decreases s.len() - i,
{
    if 0 <= i && i < s.len() && is_digit_char(s[i]) {
        if acc * 10 + digit_val(s[i]) > u64::MAX {
            None
        } else {
            sp_digits(s, i + 1, acc * 10 + digit_val(s[i]))
        }
    } else if acc > u64::MAX {
        None
    } else {
        Some((acc as u64, i))
    }
}

/// Parse a canonical decimal number: at least one digit, no leading zero
/// except for zero itself.
pub open spec fn sp_u64(s: Seq<char>, i: int) -> Option<(u64, int)> {
    if 0 <= i && i < s.len() && is_digit_char(s[i]) {
        if s[i] == '0' {
            if i + 1 < s.len() && is_digit_char(s[i + 1]) {
                None
            } else {
                Some((0, i + 1))
            }
        } else {
            sp_digits(s, i, 0)
        }
    } else {
        None
    }
}

/// An optional string value: null, or a JSON string literal.
pub open spec fn sp_opt_str_value(s: Seq<char>, i: int) -> Option<(Option<Seq<char>>, int)> {
    match sp_lit(s, i, "null"@) {
        Some(j) => Some((None, j)),
        None => match sp_str_value(s, i) {
            Some(p) => Some((Some(p.0), p.1)),
            None => None,
        },
    }
}

/// An optional numeric value: null, or a canonical decimal number.
pub open spec fn sp_opt_num_value(s: Seq<char>, i: int) -> Option<(Option<u64>, int)> {
    match sp_lit(s, i, "null"@) {
        Some(j) => Some((None, j)),
        None => match sp_u64(s, i) {
            Some(p) => Some((Some(p.0), p.1)),
            None => None,
        },
    }
}

/// Parse one whole event text: exactly the shape `spec_encode_event`
/// produces, consuming the input to its end.
pub open spec fn sp_event(s: Seq<char>) -> Option<EventModel> {
    match sp_lit(s, 0, "{\"action\":"@) {
        None => None,
        Some(j1) => match sp_str_value(s, j1) {
            None => None,
            Some((action, j2)) => match sp_lit(s, j2, ",\"key\":"@) {
                None => None,
                Some(j3) => match sp_opt_str_value(s, j3) {
                    None => None,
                    Some((key, j4)) => match sp_lit(s, j4, ",\"tab_id\":"@) {
                        None => None,
                        Some(j5) => match sp_u64(s, j5) {
                            None => None,
                            Some((tab_id, j6)) => if tab_id > u32::MAX {
                                None
                            } else {
                                sp_event_tail(s, j6, action, key, tab_id as u32)
                            },
                        },
                    },
                },
            },
        },
    }
}

/// The second half of the event shape: the per-tab attributes, the
/// sequence number and the error text, then the closing brace at the very
/// end of the input.
pub open spec fn sp_event_tail(
    s: Seq<char>,
    i: int,
    action: Seq<char>,
    key: Option<Seq<char>>,
    tab_id: u32,
) -> Option<EventModel> {
    match sp_lit(s, i, ",\"title\":"@) {
        None => None,
        Some(j1) => match sp_opt_str_value(s, j1) {
            None => None,
            Some((title, j2)) => match sp_lit(s, j2, ",\"url\":"@) {
                None => None,
                Some(j3) => match sp_opt_str_value(s, j3) {
                    None => None,
                    Some((url, j4)) => match sp_lit(s, j4, ",\"window_id\":"@) {
                        None => None,
                        Some(j5) => match sp_opt_num_value(s, j5) {
                            None => None,
                            Some((window, j6)) => if (match window {
                                Some(w) => w > u32::MAX,
                                None => false,
                            }) {
                                None
                            } else {
                                match sp_lit(s, j6, ",\"sequence_number\":"@) {
                                    None => None,
                                    Some(j7) => match sp_opt_num_value(s, j7) {
                                        None => None,
                                        Some((seqn, j8)) => match sp_lit(s, j8, ",\"error\":"@) {
                                            None => None,
                                            Some(j9) => match sp_opt_str_value(s, j9) {
                                                None => None,
                                                Some((error, j10)) => match sp_lit(s, j10, "}"@) {
                                                    None => None,
                                                    Some(j11) => if j11 == s.len() {
                                                        Some(
                                                            EventModel {
                                                                action,
                                                                key,
                                                                tab_id,
                                                                title,
                                                                url,
                                                                window_id: match window {
                                                                    Some(w) => Some(w as u32),
                                                                    None => None,
                                                                },
                                                                sequence_number: seqn,
                                                                error,
                                                            },
                                                        )
                                                    } else {
                                                        None
                                                    },
                                                },
                                            },
                                        },
                                    },
                                }
                            },
                        },
                    },
                },
            },
        },
    }
}

// ---------------------------------------------------------------------------
// Decoding undoes encoding
// ---------------------------------------------------------------------------
/// Splitting a known rest of the input at a chunk boundary.
proof fn lemma_suffix_step(s: Seq<char>, i: int, a: Seq<char>, b: Seq<char>)
    requires
        suffix_at(s, i, a + b),
    ensures
        matches_at(s, i, a),
        suffix_at(s, i + a.len(), b),
{
    assert forall|k: int| 0 <= k < a.len() implies s[i + k] == a[k] by {
        assert(s[i + k] == (a + b)[k]);
    }
    assert forall|k: int| 0 <= k < b.len() implies s[i + a.len() + k] == b[k] by {
        assert(s[i + (a.len() + k)] == (a + b)[a.len() + k]);
    }
}

/// All characters of `t` are decimal digits.
pub open spec fn all_digits(t: Seq<char>) -> bool {
    forall|k: int| 0 <= k < t.len() ==> is_digit_char(t[k])
}

/// The value of a digit string read left to right onto `acc`.
pub open spec fn hval(t: Seq<char>, acc: nat) -> nat
    decreases t.len(),
{
    if t.len() == 0 {
        acc
    } else {
        hval(t.drop_first(), acc * 10 + digit_val(t[0]))
    }
}

/// Reading digits never shrinks the accumulated value.
proof fn lemma_hval_lower(t: Seq<char>, acc: nat)
    ensures
        hval(t, acc) >= acc,
    decreases t.len(),
{
    if t.len() != 0 {
        lemma_hval_lower(t.drop_first(), acc * 10 + digit_val(t[0]));
    }
}

/// One more digit at the right multiplies the value by ten and adds it.
proof fn lemma_hval_push(t: Seq<char>, c: char, acc: nat)
    ensures
        hval(t.push(c), acc) == hval(t, acc) * 10 + digit_val(c),
    decreases t.len(),
{
    if t.len() == 0 {
        assert(t.push(c)[0] == c);
        assert(t.push(c).drop_first() =~= Seq::<char>::empty());
        assert(hval(Seq::<char>::empty(), acc * 10 + digit_val(c)) == acc * 10 + digit_val(c));
        assert(hval(t.push(c), acc) == hval(Seq::<char>::empty(), acc * 10 + digit_val(c)));
        assert(hval(t, acc) == acc);
    } else {
        assert(t.push(c)[0] == t[0]);
        assert(t.push(c).drop_first() =~= t.drop_first().push(c));
        assert(hval(t.push(c), acc) == hval(
            t.drop_first().push(c),
            acc * 10 + digit_val(t[0]),
        ));
        lemma_hval_push(t.drop_first(), c, acc * 10 + digit_val(t[0]));
        assert(hval(t, acc) == hval(t.drop_first(), acc * 10 + digit_val(t[0])));
    }
}

/// The decimal spelling of `n` is all digits, starts with a non-zero digit
/// unless `n` is zero, and reads back as `n`.
proof fn lemma_dec_digits_props(n: nat)
    ensures
        all_digits(dec_digits(n)),
        dec_digits(n).len() >= 1,
        n >= 1 ==> dec_digits(n)[0] != '0',
        hval(dec_digits(n), 0) == n,
    decreases n,
{
    if n < 10 {
        assert(dec_digits(n) =~= seq![digit_char(n)]);
        assert(dec_digits(n).drop_first() =~= Seq::<char>::empty());
        assert(digit_val(digit_char(n)) == n);
        assert(hval(Seq::<char>::empty(), digit_val(digit_char(n))) == n);
        assert(hval(dec_digits(n), 0) == hval(Seq::<char>::empty(), digit_val(digit_char(n))));
    } else {
        let q = n / 10;
        let r = n % 10;
        assert(10 * q + r == n && q >= 1 && r < 10) by (nonlinear_arith)
            requires
                n >= 10 && q == n / 10 && r == n % 10,
        ;
        lemma_dec_digits_props(q);
        let d = dec_digits(q);
        assert(dec_digits(n) == d.push(digit_char(r)));
        assert(all_digits(d.push(digit_char(r)))) by {
            assert(forall|k: int| 0 <= k < d.len() ==> d.push(digit_char(r))[k] == d[k]);
            assert(d.push(digit_char(r))[d.len() as int] == digit_char(r));
        }
        assert(d.push(digit_char(r))[0] == d[0]);
        lemma_hval_push(d, digit_char(r), 0);
        assert(digit_val(digit_char(r)) == r);
    }
}

/// A digit string standing at `i`, delimited on the right, parses to its
/// value accumulated onto `acc`.
proof fn lemma_sp_digits_encoded(s: Seq<char>, i: int, t: Seq<char>, acc: nat)
    requires
        matches_at(s, i, t),
        all_digits(t),
        i + t.len() == s.len() || !is_digit_char(s[i + t.len()]),
        hval(t, acc) <= u64::MAX,
    ensures
        sp_digits(s, i, acc) == Some((hval(t, acc) as u64, i + t.len())),
    decreases t.len(),
{
    if t.len() == 0 {
    } else {
        assert(s[i + 0] == t[0]);
        assert(s[i] == t[0]);
        let a2 = acc * 10 + digit_val(t[0]);
        assert(hval(t, acc) == hval(t.drop_first(), a2));
        lemma_hval_lower(t.drop_first(), a2);
        assert forall|k: int| 0 <= k < t.drop_first().len() implies s[i + 1 + k]
            == t.drop_first()[k] by {
            assert(t.drop_first()[k] == t[k + 1]);
            assert(s[i + (k + 1)] == t[k + 1]);
        }
        lemma_sp_digits_encoded(s, i + 1, t.drop_first(), a2);
    }
}

/// A canonical decimal number standing at `i`, delimited on the right,
/// parses back to itself.
proof fn lemma_sp_u64_encoded(s: Seq<char>, i: int, n: u64)
    requires
        matches_at(s, i, dec_digits(n as nat)),
        i + dec_digits(n as nat).len() == s.len() || !is_digit_char(
            s[i + dec_digits(n as nat).len()],
        ),
    ensures
        sp_u64(s, i) == Some((n, i + dec_digits(n as nat).len())),
{
    let t = dec_digits(n as nat);
    lemma_dec_digits_props(n as nat);
    assert(s[i + 0] == t[0]);
    assert(s[i] == t[0]);
    if n == 0 {
        assert(t =~= seq![digit_char(0)]);
        assert(s[i] == '0');
    } else {
        assert(s[i] != '0');
        lemma_sp_digits_encoded(s, i, t, 0);
    }
}

/// An escaped text standing at `i`, followed by its closing quote, parses
/// back to the text it denotes.
proof fn lemma_sp_str_body_encoded(s: Seq<char>, i: int, v: Seq<char>)
    requires
        matches_at(s, i, json_escaped(v) + seq!['"']),
    ensures
        sp_str_body(s, i) == Some((v, i + json_escaped(v).len() + 1)),
    decreases v.len(),
{
    let t = json_escaped(v) + seq!['"'];
    if v.len() == 0 {
        assert(json_escaped(v) =~= Seq::<char>::empty());
        assert(s[i + 0] == t[0]);
        assert(s[i] == '"');
        assert(sp_str_body(s, i) == Some((Seq::<char>::empty(), i + 1)));
        assert(Seq::<char>::empty() =~= v);
    } else {
        let c = v[0];
        let rest = v.drop_first();
        assert(json_escaped(v) == esc_char(c) + json_escaped(rest));
        assert(t =~= esc_char(c) + (json_escaped(rest) + seq!['"']));
        let t2 = json_escaped(rest) + seq!['"'];
        if c == '"' || c == '\\' {
            assert(esc_char(c) =~= seq!['\\', c]);
            assert(s[i + 0] == t[0] && s[i + 1] == t[1]);
            assert(s[i] == '\\' && s[i + 1] == c);
            assert forall|k: int| 0 <= k < t2.len() implies s[i + 2 + k] == t2[k] by {
                assert(s[i + (k + 2)] == t[k + 2]);
                assert(t[k + 2] == t2[k]);
            }
            lemma_sp_str_body_encoded(s, i + 2, rest);
            assert(seq![s[i + 1]] + rest =~= v);
        } else {
            assert(esc_char(c) =~= seq![c]);
            assert(s[i + 0] == t[0]);
            assert(s[i] == c);
            assert forall|k: int| 0 <= k < t2.len() implies s[i + 1 + k] == t2[k] by {
                assert(s[i + (k + 1)] == t[k + 1]);
                assert(t[k + 1] == t2[k]);
            }
            lemma_sp_str_body_encoded(s, i + 1, rest);
            assert(seq![s[i]] + rest =~= v);
        }
    }
}

/// A whole JSON string literal standing at `i` parses back to its text.
proof fn lemma_sp_str_value_encoded(s: Seq<char>, i: int, v: Seq<char>)
    requires
        matches_at(s, i, json_string(v)),
    ensures
        sp_str_value(s, i) == Some((v, i + json_string(v).len())),
{
    reveal_strlit("\"");
    assert(json_string(v)[0] == '"');
    assert(s[i + 0] == json_string(v)[0]);
    assert(s[i] == '"');
    assert(matches_at(s, i, "\""@)) by {
        assert("\""@.len() == 1 && "\""@[0] == '"');
    }
    assert(sp_lit(s, i, "\""@) == Some(i + 1));
    let t2 = json_escaped(v) + seq!['"'];
    assert forall|k: int| 0 <= k < t2.len() implies s[i + 1 + k] == t2[k] by {
        assert(s[i + (k + 1)] == json_string(v)[k + 1]);
        assert(json_string(v) =~= seq!['"'] + t2);
    }
    lemma_sp_str_body_encoded(s, i + 1, v);
}

/// An optional string value written canonically parses back to itself.
proof fn lemma_sp_opt_str_encoded(s: Seq<char>, i: int, v: Option<Seq<char>>)
    requires
        matches_at(s, i, opt_str_json(v)),
    ensures
        sp_opt_str_value(s, i) == Some((v, i + opt_str_json(v).len())),
{
    reveal_strlit("null");
    match v {
        None => {
            assert(matches_at(s, i, "null"@));
        },
        Some(v0) => {
            assert(json_string(v0)[0] == '"');
            assert(s[i + 0] == opt_str_json(v)[0]);
            assert(s[i] == '"');
            assert(!matches_at(s, i, "null"@)) by {
                if matches_at(s, i, "null"@) {
                    assert(s[i + 0] == "null"@[0]);
                }
            }
            lemma_sp_str_value_encoded(s, i, v0);
        },
    }
}

/// An optional numeric value written canonically, delimited on the right,
/// parses back to itself.
proof fn lemma_sp_opt_num_encoded(s: Seq<char>, i: int, v: Option<u64>)
    requires
        matches_at(s, i, opt_num_json(v)),
        i + opt_num_json(v).len() == s.len() || !is_digit_char(s[i + opt_num_json(v).len()]),
    ensures
        sp_opt_num_value(s, i) == Some((v, i + opt_num_json(v).len())),
{
    reveal_strlit("null");
    match v {
        None => {
            assert(matches_at(s, i, "null"@));
        },
        Some(n) => {
            lemma_dec_digits_props(n as nat);
            assert(s[i + 0] == opt_num_json(v)[0]);
            assert(s[i] == dec_digits(n as nat)[0]);
            assert(is_digit_char(s[i]));
            assert(!matches_at(s, i, "null"@)) by {
                if matches_at(s, i, "null"@) {
                    assert(s[i + 0] == "null"@[0]);
                }
            }
            lemma_sp_u64_encoded(s, i, n);
        },
    }
}

/// The tail of a canonical event text parses back to the fields it was
/// built from.
#[verifier::rlimit(100)]
proof fn lemma_event_tail_round_trip(s: Seq<char>, i: int, m: EventModel)
    requires
        suffix_at(s, i, spec_encode_event_tail(m)),
    ensures
        sp_event_tail(s, i, m.action, m.key, m.tab_id) == Some(m),
{
    reveal_strlit(",\"sequence_number\":");
    reveal_strlit(",\"error\":");
    reveal_strlit("}");
    let c7 = ",\"title\":"@;
    let c8 = opt_str_json(m.title);
    let c9 = ",\"url\":"@;
    let c10 = opt_str_json(m.url);
    let c11 = ",\"window_id\":"@;
    let c12 = opt_num_json(num_of_window(m.window_id));
    let c13 = ",\"sequence_number\":"@;
    let c14 = opt_num_json(m.sequence_number);
    let c15 = ",\"error\":"@;
    let c16 = opt_str_json(m.error);
    let c17 = "}"@;
    let t17 = c17;
    let t16 = c16 + t17;
    let t15 = c15 + t16;
    let t14 = c14 + t15;
    let t13 = c13 + t14;
    let t12 = c12 + t13;
    let t11 = c11 + t12;
    let t10 = c10 + t11;
    let t9 = c9 + t10;
    let t8 = c8 + t9;
    let t7 = c7 + t8;
    assert(spec_encode_event_tail(m) =~= t7);
    lemma_suffix_step(s, i, c7, t8);
    let i8 = i + c7.len() as int;
    lemma_suffix_step(s, i8, c8, t9);
    let i9 = i8 + c8.len() as int;
    lemma_suffix_step(s, i9, c9, t10);
    let i10 = i9 + c9.len() as int;
    lemma_suffix_step(s, i10, c10, t11);
    let i11 = i10 + c10.len() as int;
    lemma_suffix_step(s, i11, c11, t12);
    let i12 = i11 + c11.len() as int;
    lemma_suffix_step(s, i12, c12, t13);
    let i13 = i12 + c12.len() as int;
    lemma_suffix_step(s, i13, c13, t14);
    let i14 = i13 + c13.len() as int;
    lemma_suffix_step(s, i14, c14, t15);
    let i15 = i14 + c14.len() as int;
    lemma_suffix_step(s, i15, c15, t16);
    let i16 = i15 + c15.len() as int;
    lemma_suffix_step(s, i16, c16, t17);
    let i17 = i16 + c16.len() as int;
    assert(sp_lit(s, i, c7) == Some(i8));
    assert(sp_lit(s, i9, c9) == Some(i10));
    assert(sp_lit(s, i11, c11) == Some(i12));
    assert(sp_lit(s, i13, c13) == Some(i14));
    assert(sp_lit(s, i15, c15) == Some(i16));
    assert(sp_lit(s, i17, c17) == Some(i17 + 1));
    assert(i17 + 1 == s.len());
    lemma_sp_opt_str_encoded(s, i8, m.title);
    lemma_sp_opt_str_encoded(s, i10, m.url);
    lemma_sp_opt_str_encoded(s, i16, m.error);
    assert(s[i13 + 0] == c13[0]);
    assert(!is_digit_char(s[i13]));
    lemma_sp_opt_num_encoded(s, i12, num_of_window(m.window_id));
    assert(s[i15 + 0] == c15[0]);
    assert(!is_digit_char(s[i15]));
    lemma_sp_opt_num_encoded(s, i14, m.sequence_number);
    assert(sp_event_tail(s, i, m.action, m.key, m.tab_id) == Some(m));
}

/// The event text regrouped at its chunk boundaries.
proof fn lemma_encode_head_regroup(m: EventModel)
    ensures
        spec_encode_event(m) == "{\"action\":"@ + (json_string(m.action) + (",\"key\":"@
            + (opt_str_json(m.key) + (",\"tab_id\":"@ + (dec_digits(m.tab_id as nat)
            + spec_encode_event_tail(m)))))),
{
    assert(spec_encode_event(m) =~= "{\"action\":"@ + (json_string(m.action) + (",\"key\":"@
        + (opt_str_json(m.key) + (",\"tab_id\":"@ + (dec_digits(m.tab_id as nat)
        + spec_encode_event_tail(m)))))));
}

/// Where each piece of the event text begins: after the action key, after
/// the action value, and so on through the tab id.
spec fn ev_p2(m: EventModel) -> int {
    "{\"action\":"@.len() as int
}

spec fn ev_p3(m: EventModel) -> int {
    ev_p2(m) + json_string(m.action).len()
}

spec fn ev_p4(m: EventModel) -> int {
    ev_p3(m) + ",\"key\":"@.len()
}

spec fn ev_p5(m: EventModel) -> int {
    ev_p4(m) + opt_str_json(m.key).len()
}

spec fn ev_p6(m: EventModel) -> int {
    ev_p5(m) + ",\"tab_id\":"@.len()
}

spec fn ev_p7(m: EventModel) -> int {
    ev_p6(m) + dec_digits(m.tab_id as nat).len()
}

/// The first half of a canonical event text parses piece by piece back to
/// the fields it was built from, and the rest is exactly the tail text.
#[verifier::rlimit(100)]
proof fn lemma_event_head_parts(m: EventModel)
    ensures
        sp_lit(spec_encode_event(m), 0, "{\"action\":"@) == Some(ev_p2(m)),
        sp_str_value(spec_encode_event(m), ev_p2(m)) == Some((m.action, ev_p3(m))),
        sp_lit(spec_encode_event(m), ev_p3(m), ",\"key\":"@) == Some(ev_p4(m)),
        sp_opt_str_value(spec_encode_event(m), ev_p4(m)) == Some((m.key, ev_p5(m))),
        sp_lit(spec_encode_event(m), ev_p5(m), ",\"tab_id\":"@) == Some(ev_p6(m)),
        sp_u64(spec_encode_event(m), ev_p6(m)) == Some((m.tab_id as u64, ev_p7(m))),
        suffix_at(spec_encode_event(m), ev_p7(m), spec_encode_event_tail(m)),
{
    reveal_strlit(",\"title\":");
    let s = spec_encode_event(m);
    let c1 = "{\"action\":"@;
    let c2 = json_string(m.action);
    let c3 = ",\"key\":"@;
    let c4 = opt_str_json(m.key);
    let c5 = ",\"tab_id\":"@;
    let c6 = dec_digits(m.tab_id as nat);
    let t7 = spec_encode_event_tail(m);
    let t6 = c6 + t7;
    let t5 = c5 + t6;
    let t4 = c4 + t5;
    let t3 = c3 + t4;
    let t2 = c2 + t3;
    let t1 = c1 + t2;
    lemma_encode_head_regroup(m);
    assert(s == t1);
    assert(suffix_at(s, 0, t1));
    lemma_suffix_step(s, 0, c1, t2);
    let i2 = 0 + c1.len() as int;
    lemma_suffix_step(s, i2, c2, t3);
    let i3 = i2 + c2.len() as int;
    lemma_suffix_step(s, i3, c3, t4);
    let i4 = i3 + c3.len() as int;
    lemma_suffix_step(s, i4, c4, t5);
    let i5 = i4 + c4.len() as int;
    lemma_suffix_step(s, i5, c5, t6);
    let i6 = i5 + c5.len() as int;
    lemma_suffix_step(s, i6, c6, t7);
    let i7 = i6 + c6.len() as int;
    assert(sp_lit(s, 0, c1) == Some(i2));
    assert(sp_lit(s, i3, c3) == Some(i4));
    assert(sp_lit(s, i5, c5) == Some(i6));
    lemma_sp_str_value_encoded(s, i2, m.action);
    lemma_sp_opt_str_encoded(s, i4, m.key);
    assert(s[i7 + 0] == ",\"title\":"@[0]) by {
        assert(spec_encode_event_tail(m)[0] == ",\"title\":"@[0]);
    }
    assert(!is_digit_char(s[i7]));
    lemma_sp_u64_encoded(s, i6, m.tab_id as u64);
}

/// Decoding is the inverse of encoding: the canonical JSON text of any
/// event parses back to exactly that event.
pub proof fn lemma_event_round_trip(m: EventModel)
    ensures
        sp_event(spec_encode_event(m)) == Some(m),
{
    let s = spec_encode_event(m);
    lemma_event_head_parts(m);
    lemma_event_tail_round_trip(s, ev_p7(m), m);
    assert(sp_event(s) == Some(m));
}

// ---------------------------------------------------------------------------
// The executable decoder
// ---------------------------------------------------------------------------
/// The payload is not a canonical event text.
#[derive(Debug, PartialEq, Eq, Structural)]
pub struct DecodeError;

/// The value of a digit character, or ten for anything else, as an
/// executable step.
fn digit_of(c: char) -> (r: u64)
    ensures
        r as nat == digit_val(c),
        r < 10 <==> is_digit_char(c),
{
    match c {
        '0' => 0,
        '1' => 1,
        '2' => 2,
        '3' => 3,
        '4' => 4,
        '5' => 5,
        '6' => 6,
        '7' => 7,
        '8' => 8,
        '9' => 9,
        _ => 10,
    }
}

/// Expect `lit` at position `i` of `s`.
fn match_lit(s: &str, i: usize, lit: &str) -> (r: Option<usize>)
    requires
        i <= s@.len(),
    ensures
        match r {
            Some(j) => sp_lit(s@, i as int, lit@) == Some(j as int) && j <= s@.len(),
            None => sp_lit(s@, i as int, lit@) is None,
        },
{
    let n = lit.unicode_len();
    let sl = s.unicode_len();
    if n > sl - i {
        return None;
    }
    let mut k: usize = 0;
    while k < n
        invariant
            sl == s@.len(),
            n == lit@.len(),
            i + n <= sl,
            0 <= k <= n,
            forall|t: int| 0 <= t < k ==> s@[i + t] == lit@[t],
        decreases n - k,
    {
        let a = s.get_char(i + k);
        let b = lit.get_char(k);
        if a != b {
            proof {
                if matches_at(s@, i as int, lit@) {
                    assert(s@[i as int + k as int] == lit@[k as int]);
                }
            }
            return None;
        }
        k = k + 1;
    }
    proof {
        assert(matches_at(s@, i as int, lit@));
    }
    Some(i + n)
}

/// Parse a JSON string body from after its opening quote to its closing
/// quote, undoing the escapes.
fn parse_str_body(s: &str, i: usize) -> (r: Option<(String, usize)>)
    requires
        i <= s@.len(),
    ensures
        match r {
            Some(p) => sp_str_body(s@, i as int) == Some((p.0@, p.1 as int)) && p.1 <= s@.len(),
            None => sp_str_body(s@, i as int) is None,
        },
{
    let sl = s.unicode_len();
    let mut acc = String::new();
    let mut cur: usize = i;
    loop
        invariant
            sl == s@.len(),
            i <= cur <= sl,
            (match sp_str_body(s@, cur as int) {
                Some(p) => sp_str_body(s@, i as int) == Some((acc@ + p.0, p.1)),
                None => sp_str_body(s@, i as int) is None,
            }),
        decreases sl - cur,
    {
        if cur >= sl {
            return None;
        }
        let c = s.get_char(cur);
        if c == '"' {
            proof {
                assert(sp_str_body(s@, cur as int) == Some((Seq::<char>::empty(), cur + 1)));
                assert(acc@ + Seq::<char>::empty() =~= acc@);
            }
            return Some((acc, cur + 1));
        } else if c == '\\' {
            if cur + 1 < sl {
                let c2 = s.get_char(cur + 1);
                if c2 == '"' || c2 == '\\' {
                    let ghost acc0 = acc@;
                    push_char(&mut acc, c2);
                    proof {
                        match sp_str_body(s@, cur as int + 2) {
                            Some(p) => {
                                assert(sp_str_body(s@, cur as int) == Some(
                                    (seq![s@[cur as int + 1]] + p.0, p.1),
                                ));
                                assert(acc0 + (seq![c2] + p.0) =~= acc0.push(c2) + p.0);
                            },
                            None => {
                                assert(sp_str_body(s@, cur as int) is None);
                            },
                        }
                    }
                    cur = cur + 2;
                } else {
                    return None;
                }
            } else {
                return None;
            }
        } else {
            let ghost acc0 = acc@;
            push_char(&mut acc, c);
            proof {
                match sp_str_body(s@, cur as int + 1) {
                    Some(p) => {
                        assert(sp_str_body(s@, cur as int) == Some((seq![s@[cur as int]] + p.0, p.1)));
                        assert(acc0 + (seq![c] + p.0) =~= acc0.push(c) + p.0);
                    },
                    None => {
                        assert(sp_str_body(s@, cur as int) is None);
                    },
                }
            }
            cur = cur + 1;
        }
    }
}

/// Parse a canonical decimal number.
fn parse_number(s: &str, i: usize) -> (r: Option<(u64, usize)>)
    requires
        i <= s@.len(),
    ensures
        match r {
            Some(p) => sp_u64(s@, i as int) == Some((p.0, p.1 as int)) && p.1 <= s@.len(),
            None => sp_u64(s@, i as int) is None,
        },
{
    let sl = s.unicode_len();
    if i >= sl {
        return None;
    }
    let c0 = s.get_char(i);
    if digit_of(c0) >= 10 {
        return None;
    }
    if c0 == '0' {
        if i + 1 < sl {
            let c1 = s.get_char(i + 1);
            if digit_of(c1) < 10 {
                return None;
            }
        }
        return Some((0, i + 1));
    }
    let mut acc: u64 = 0;
    let mut cur: usize = i;
    loop
        invariant
            sl == s@.len(),
            i <= cur <= sl,
            sp_u64(s@, i as int) == sp_digits(s@, cur as int, acc as nat),
        decreases sl - cur,
    {
        if cur >= sl {
            proof {
                assert(sp_digits(s@, cur as int, acc as nat) == Some((acc, cur as int)));
            }
            return Some((acc, cur));
        }
        let c = s.get_char(cur);
        let d = digit_of(c);
        if d >= 10 {
            proof {
                assert(sp_digits(s@, cur as int, acc as nat) == Some((acc, cur as int)));
            }
            return Some((acc, cur));
        }
        let next = match acc.checked_mul(10) {
            Some(m10) => m10.checked_add(d),
            None => None,
        };
        match next {
            Some(a2) => {
                proof {
                    assert(a2 as nat == acc as nat * 10 + digit_val(s@[cur as int]));
                }
                acc = a2;
                cur = cur + 1;
            },
            None => {
                proof {
                    assert(acc as nat * 10 + digit_val(s@[cur as int]) > u64::MAX);
                }
                return None;
            },
        }
    }
}

/// Parse an optional string value: null or a JSON string literal.
fn parse_opt_str(s: &str, i: usize) -> (r: Option<(Option<String>, usize)>)
    requires
        i <= s@.len(),
    ensures
        match r {
            Some(p) => sp_opt_str_value(s@, i as int) == Some((opt_string_view(p.0), p.1 as int))
                && p.1 <= s@.len(),
            None => sp_opt_str_value(s@, i as int) is None,
        },
{
    match match_lit(s, i, "null") {
        Some(j) => Some((None, j)),
        None => match match_lit(s, i, "\"") {
            Some(j) => match parse_str_body(s, j) {
                Some((v, k)) => Some((Some(v), k)),
                None => None,
            },
            None => None,
        },
    }
}

/// Parse an optional numeric value: null or a canonical decimal number.
fn parse_opt_num(s: &str, i: usize) -> (r: Option<(Option<u64>, usize)>)
    requires
        i <= s@.len(),
    ensures
        match r {
            Some(p) => sp_opt_num_value(s@, i as int) == Some((p.0, p.1 as int)) && p.1
                <= s@.len(),
            None => sp_opt_num_value(s@, i as int) is None,
        },
{
    match match_lit(s, i, "null") {
        Some(j) => Some((None, j)),
        None => match parse_number(s, i) {
            Some((v, k)) => Some((Some(v), k)),
            None => None,
        },
    }
}

/// Decode the second half of an event text.
#[verifier::rlimit(100)]
fn decode_event_tail(s: &str, i: usize, action: String, key: Option<String>, tab_id: u32) -> (r:
    Result<TabEvent, DecodeError>)
    requires
        i <= s@.len(),
    ensures
        match r {
            Ok(e) => sp_event_tail(s@, i as int, action@, opt_string_view(key), tab_id) == Some(
                e@,
            ),
            Err(_) => sp_event_tail(s@, i as int, action@, opt_string_view(key), tab_id) is None,
        },
{
    let j1 = match match_lit(s, i, ",\"title\":") {
        Some(j) => j,
        None => {
            return Err(DecodeError);
        },
    };
    let (title, j2) = match parse_opt_str(s, j1) {
        Some(p) => p,
        None => {
            return Err(DecodeError);
        },
    };
    let j3 = match match_lit(s, j2, ",\"url\":") {
        Some(j) => j,
        None => {
            return Err(DecodeError);
        },
    };
    let (url, j4) = match parse_opt_str(s, j3) {
        Some(p) => p,
        None => {
            return Err(DecodeError);
        },
    };
    let j5 = match match_lit(s, j4, ",\"window_id\":") {
        Some(j) => j,
        None => {
            return Err(DecodeError);
        },
    };
    let (win64, j6) = match parse_opt_num(s, j5) {
        Some(p) => p,
        None => {
            return Err(DecodeError);
        },
    };
    let window_id: Option<u32> = match win64 {
        Some(w) => {
            if w > u32::MAX as u64 {
                return Err(DecodeError);
            } else {
                Some(w as u32)
            }
        },
        None => None,
    };
    let j7 = match match_lit(s, j6, ",\"sequence_number\":") {
        Some(j) => j,
        None => {
            return Err(DecodeError);
        },
    };
    let (seqn, j8) = match parse_opt_num(s, j7) {
        Some(p) => p,
        None => {
            return Err(DecodeError);
        },
    };
    let j9 = match match_lit(s, j8, ",\"error\":") {
        Some(j) => j,
        None => {
            return Err(DecodeError);
        },
    };
    let (error, j10) = match parse_opt_str(s, j9) {
        Some(p) => p,
        None => {
            return Err(DecodeError);
        },
    };
    let j11 = match match_lit(s, j10, "}") {
        Some(j) => j,
        None => {
            return Err(DecodeError);
        },
    };
    if j11 != s.unicode_len() {
        return Err(DecodeError);
    }
    let e = TabEvent {
        action,
        key,
        tab_info: TabInfo { tab_id, attributes: TabAttributes { title, url, window_id } },
        sequence_number: seqn,
        error,
    };
    Ok(e)
}

/// Decode one event from its JSON text. A text `encode_event` produced
/// decodes back to the event it encodes; a text the canonical grammar
/// rejects yields the decoding error.
#[verifier::rlimit(100)]
pub fn decode_event(s: &str) -> (r: Result<TabEvent, DecodeError>)
    ensures
        match r {
            Ok(e) => sp_event(s@) == Some(e@),
            Err(_) => sp_event(s@) is None,
        },
{
    let j1 = match match_lit(s, 0, "{\"action\":") {
        Some(j) => j,
        None => {
            return Err(DecodeError);
        },
    };
    let j1b = match match_lit(s, j1, "\"") {
        Some(j) => j,
        None => {
            return Err(DecodeError);
        },
    };
    let (action, j2) = match parse_str_body(s, j1b) {
        Some(p) => p,
        None => {
            return Err(DecodeError);
        },
    };
    let j3 = match match_lit(s, j2, ",\"key\":") {
        Some(j) => j,
        None => {
            return Err(DecodeError);
        },
    };
    let (key, j4) = match parse_opt_str(s, j3) {
        Some(p) => p,
        None => {
            return Err(DecodeError);
        },
    };
    let j5 = match match_lit(s, j4, ",\"tab_id\":") {
        Some(j) => j,
        None => {
            return Err(DecodeError);
        },
    };
    let (tab64, j6) = match parse_number(s, j5) {
        Some(p) => p,
        None => {
            return Err(DecodeError);
        },
    };
    if tab64 > u32::MAX as u64 {
        return Err(DecodeError);
    }
    let tab_id = tab64 as u32;
    decode_event_tail(s, j6, action, key, tab_id)
}

/// Append the second half of an event text: attributes, sequence number,
/// error, closing brace.
#[verifier::rlimit(100)]
fn push_event_tail(out: &mut String, e: &TabEvent)
    ensures
        final(out)@ == old(out)@ + spec_encode_event_tail(e@),
{
    out.append(",\"title\":");
    match e.tab_info.attributes.title {
        Some(ref t) => push_json_string(out, t.as_str()),
        None => out.append("null"),
    }
    out.append(",\"url\":");
    match e.tab_info.attributes.url {
        Some(ref u) => push_json_string(out, u.as_str()),
        None => out.append("null"),
    }
    out.append(",\"window_id\":");
    match e.tab_info.attributes.window_id {
        Some(w) => push_decimal(out, w as u64),
        None => out.append("null"),
    }
    out.append(",\"sequence_number\":");
    match e.sequence_number {
        Some(n) => push_decimal(out, n),
        None => out.append("null"),
    }
    out.append(",\"error\":");
    match e.error {
        Some(ref m) => push_json_string(out, m.as_str()),
        None => out.append("null"),
    }
    out.append("}");
    proof {
        assert(out@ =~= old(out)@ + spec_encode_event_tail(e@));
    }
}

/// Encode one event as its JSON text.
pub fn encode_event(e: &TabEvent) -> (r: String)
    ensures
        r@ == spec_encode_event(e@),
{
    let mut out = String::new();
    out.append("{\"action\":");
    push_json_string(&mut out, e.action.as_str());
    out.append(",\"key\":");
    match e.key {
        Some(ref k) => push_json_string(&mut out, k.as_str()),
        None => out.append("null"),
    }
    out.append(",\"tab_id\":");
    push_decimal(&mut out, e.tab_info.tab_id as u64);
    push_event_tail(&mut out, e);
    proof {
        assert(out@ =~= spec_encode_event(e@));
    }
    out
}

/// Encode one command as its JSON text.
pub fn encode_command(c: &Command) -> (r: String)
    ensures
        r@ == spec_encode_command(c@),
{
    let mut out = String::new();
    out.append("{\"action\":");
    push_json_string(&mut out, c.action.as_str());
    out.append(",\"tab_id\":");
    push_decimal(&mut out, c.tab_id as u64);
    out.append(",\"window_id\":");
    match c.window_id {
        Some(w) => push_decimal(&mut out, w as u64),
        None => out.append("null"),
    }
    out.append(",\"window_title_preface\":");
    match c.window_title_preface {
        Some(ref s) => push_json_string(&mut out, s.as_str()),
        None => out.append("null"),
    }
    out.append(",\"sequence_number\":");
    push_decimal(&mut out, c.sequence_number);
    out.append("}");
    proof {
        assert(out@ =~= spec_encode_command(c@));
    }
    out
}

} // verus!

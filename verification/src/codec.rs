//! The persisted form of the pending list: a JSON array of strings. The
//! encoder writes one canonical spelling — compact, with quotes, backslashes
//! and control characters escaped. The decoder reads the whole JSON grammar
//! for an array of strings: whitespace between tokens, every escape form
//! (`\/`, `\uXXXX` in either hex case, surrogate pairs for characters beyond
//! the basic plane), and rejects exactly the texts outside that grammar.
//! Decoding is a proved inverse of encoding, since every canonical text lies
//! inside the grammar.

use vstd::prelude::*;

verus! {

use vstd::string::StrSliceExecFns;

/// True of the control characters, the only ones that are never written raw.
pub open spec fn is_control(c: char) -> bool {
    (c as int) < 32
}

/// The escape letter of the five control characters with a two-character
/// escape.
pub open spec fn short_escape(c: char) -> Option<char> {
    if c == '\u{8}' {
        Some('b')
    } else if c == '\t' {
        Some('t')
    } else if c == '\n' {
        Some('n')
    } else if c == '\u{c}' {
        Some('f')
    } else if c == '\r' {
        Some('r')
    } else {
        None
    }
}

/// True of the four characters that may stand between tokens.
pub open spec fn is_ws(c: char) -> bool {
    c == ' ' || c == '\t' || c == '\n' || c == '\r'
}

/// The character a two-character escape stands for.
pub open spec fn unescape(e: char) -> Option<char> {
    if e == '"' {
        Some('"')
    } else if e == '\\' {
        Some('\\')
    } else if e == '/' {
        Some('/')
    } else if e == 'b' {
        Some('\u{8}')
    } else if e == 't' {
        Some('\t')
    } else if e == 'n' {
        Some('\n')
    } else if e == 'f' {
        Some('\u{c}')
    } else if e == 'r' {
        Some('\r')
    } else {
        None
    }
}

/// The lower-case hexadecimal digit of a value below 16.
pub open spec fn hex_char(n: int) -> char {
    if n == 0 {
        '0'
    } else if n == 1 {
        '1'
    } else if n == 2 {
        '2'
    } else if n == 3 {
        '3'
    } else if n == 4 {
        '4'
    } else if n == 5 {
        '5'
    } else if n == 6 {
        '6'
    } else if n == 7 {
        '7'
    } else if n == 8 {
        '8'
    } else if n == 9 {
        '9'
    } else if n == 10 {
        'a'
    } else if n == 11 {
        'b'
    } else if n == 12 {
        'c'
    } else if n == 13 {
        'd'
    } else if n == 14 {
        'e'
    } else {
        'f'
    }
}

/// The value of a hexadecimal digit, in either letter case.
pub open spec fn hex_digit_value(c: char) -> Option<int> {
    if c == '0' {
        Some(0int)
    } else if c == '1' {
        Some(1int)
    } else if c == '2' {
        Some(2int)
    } else if c == '3' {
        Some(3int)
    } else if c == '4' {
        Some(4int)
    } else if c == '5' {
        Some(5int)
    } else if c == '6' {
        Some(6int)
    } else if c == '7' {
        Some(7int)
    } else if c == '8' {
        Some(8int)
    } else if c == '9' {
        Some(9int)
    } else if c == 'a' || c == 'A' {
        Some(10int)
    } else if c == 'b' || c == 'B' {
        Some(11int)
    } else if c == 'c' || c == 'C' {
        Some(12int)
    } else if c == 'd' || c == 'D' {
        Some(13int)
    } else if c == 'e' || c == 'E' {
        Some(14int)
    } else if c == 'f' || c == 'F' {
        Some(15int)
    } else {
        None
    }
}

/// How one character is written inside a quoted string: itself, a
/// two-character escape, or `\u00` and two hexadecimal digits.
pub open spec fn encode_char(c: char) -> Seq<char> {
    match short_escape(c) {
        Some(e) => seq!['\\', e],
        None => if c == '"' {
            seq!['\\', '"']
        } else if c == '\\' {
            seq!['\\', '\\']
        } else if is_control(c) {
            seq!['\\', 'u', '0', '0', hex_char((c as int) / 16), hex_char((c as int) % 16)]
        } else {
            seq![c]
        },
    }
}

/// The written body of a string: each character encoded, in order.
pub open spec fn encode_body(s: Seq<char>) -> Seq<char>
    decreases s.len(),
{
    if s.len() == 0 {
        Seq::empty()
    } else {
        encode_char(s[0]) + encode_body(s.drop_first())
    }
}

/// A string as written: its body between double quotes.
pub open spec fn quoted(s: Seq<char>) -> Seq<char> {
    seq!['"'] + encode_body(s) + seq!['"']
}

/// The written text up to the point where one more string may start: the
/// opening bracket, then every string of `acc` followed by a comma.
pub open spec fn list_prefix(acc: Seq<Seq<char>>) -> Seq<char>
    decreases acc.len(),
{
    if acc.len() == 0 {
        seq!['[']
    } else {
        list_prefix(acc.drop_last()) + quoted(acc.last()) + seq![',']
    }
}

/// A whole list as written: quoted strings between brackets, separated by
/// commas and with no whitespace.
pub open spec fn encode_list(l: Seq<Seq<char>>) -> Seq<char> {
    if l.len() == 0 {
        seq!['[', ']']
    } else {
        list_prefix(l.drop_last()) + quoted(l.last()) + seq![']']
    }
}

/// Where the decoder stands after reading some prefix of the text. `acc`
/// holds the finished strings, `cur` the body of the string being read. In
/// `Hex` and `SurHex`, `k` digits of a `\uXXXX` escape were read and `v` is
/// their value so far; in the three surrogate states, `hi` is the leading
/// surrogate waiting for its trailing partner.
pub enum DecodeState {
    /// Nothing but whitespace read yet; an opening bracket must come.
    Start,
    /// A string may start here; a closing bracket ends an empty list.
    Elem(Seq<Seq<char>>),
    /// Inside a quoted string.
    Str(Seq<Seq<char>>, Seq<char>),
    /// Right after a backslash.
    Esc(Seq<Seq<char>>, Seq<char>),
    /// Inside the digits of a `\uXXXX` escape.
    Hex(Seq<Seq<char>>, Seq<char>, int, int),
    /// After a leading surrogate escape; a backslash must come.
    SurEsc(Seq<Seq<char>>, Seq<char>, int),
    /// After the backslash that follows a leading surrogate; `u` must come.
    SurEscU(Seq<Seq<char>>, Seq<char>, int),
    /// Inside the digits of the trailing surrogate's `\uXXXX` escape.
    SurHex(Seq<Seq<char>>, Seq<char>, int, int, int),
    /// Right after a closing quote; a comma or the closing bracket must come.
    Sep(Seq<Seq<char>>),
    /// The closing bracket was read; only whitespace may follow.
    Done(Seq<Seq<char>>),
    /// The text is not the written form of any list of strings.
    Fail,
}

/// One decoding step of the JSON grammar for an array of strings:
/// whitespace between tokens, any escape spelling inside a string, raw
/// control characters and lone surrogate escapes rejected.
pub open spec fn decode_step(st: DecodeState, c: char) -> DecodeState {
    match st {
        DecodeState::Start => if is_ws(c) {
            DecodeState::Start
        } else if c == '[' {
            DecodeState::Elem(Seq::empty())
        } else {
            DecodeState::Fail
        },
        DecodeState::Elem(acc) => if is_ws(c) {
            DecodeState::Elem(acc)
        } else if c == '"' {
            DecodeState::Str(acc, Seq::empty())
        } else if c == ']' && acc.len() == 0 {
            DecodeState::Done(acc)
        } else {
            DecodeState::Fail
        },
        DecodeState::Str(acc, cur) => if c == '"' {
            DecodeState::Sep(acc.push(cur))
        } else if c == '\\' {
            DecodeState::Esc(acc, cur)
        } else if is_control(c) {
            DecodeState::Fail
        } else {
            DecodeState::Str(acc, cur.push(c))
        },
        DecodeState::Esc(acc, cur) => if c == 'u' {
            DecodeState::Hex(acc, cur, 0, 0)
        } else {
            match unescape(c) {
                Some(d) => DecodeState::Str(acc, cur.push(d)),
                None => DecodeState::Fail,
            }
        },
        DecodeState::Hex(acc, cur, k, v) => match hex_digit_value(c) {
            Some(d) => {
                let w = v * 16 + d;
                if k < 3 {
                    DecodeState::Hex(acc, cur, k + 1, w)
                } else if 0xD800 <= w < 0xDC00 {
                    DecodeState::SurEsc(acc, cur, w)
                } else if 0xDC00 <= w < 0xE000 {
                    DecodeState::Fail
                } else {
                    DecodeState::Str(acc, cur.push(w as char))
                }
            },
            None => DecodeState::Fail,
        },
        DecodeState::SurEsc(acc, cur, hi) => if c == '\\' {
            DecodeState::SurEscU(acc, cur, hi)
        } else {
            DecodeState::Fail
        },
        DecodeState::SurEscU(acc, cur, hi) => if c == 'u' {
            DecodeState::SurHex(acc, cur, hi, 0, 0)
        } else {
            DecodeState::Fail
        },
        DecodeState::SurHex(acc, cur, hi, k, v) => match hex_digit_value(c) {
            Some(d) => {
                let w = v * 16 + d;
                if k < 3 {
                    DecodeState::SurHex(acc, cur, hi, k + 1, w)
                } else if 0xDC00 <= w < 0xE000 {
                    DecodeState::Str(
                        acc,
                        cur.push((0x10000 + (hi - 0xD800) * 0x400 + (w - 0xDC00)) as char),
                    )
                } else {
                    DecodeState::Fail
                }
            },
            None => DecodeState::Fail,
        },
        DecodeState::Sep(acc) => if is_ws(c) {
            DecodeState::Sep(acc)
        } else if c == ',' {
            DecodeState::Elem(acc)
        } else if c == ']' {
            DecodeState::Done(acc)
        } else {
            DecodeState::Fail
        },
        DecodeState::Done(acc) => if is_ws(c) {
            DecodeState::Done(acc)
        } else {
            DecodeState::Fail
        },
        DecodeState::Fail => DecodeState::Fail,
    }
}

/// The decoder run over a text, character by character.
pub open spec fn decode_run(st: DecodeState, s: Seq<char>) -> DecodeState
    decreases s.len(),
{
    if s.len() == 0 {
        st
    } else {
        decode_run(decode_step(st, s[0]), s.drop_first())
    }
}

/// What a text decodes to: the strings gathered when the run ends exactly on
/// the closing bracket, and nothing otherwise.
pub open spec fn decode_spec(s: Seq<char>) -> Option<Seq<Seq<char>>> {
    match decode_run(DecodeState::Start, s) {
        DecodeState::Done(l) => Some(l),
        _ => None,
    }
}

proof fn lemma_run_concat(st: DecodeState, a: Seq<char>, b: Seq<char>)
    ensures
        decode_run(st, a + b) == decode_run(decode_run(st, a), b),
    decreases a.len(),
{
    if a.len() == 0 {
        assert(a + b =~= b);
    } else {
        assert((a + b).drop_first() =~= a.drop_first() + b);
        lemma_run_concat(decode_step(st, a[0]), a.drop_first(), b);
    }
}

proof fn lemma_run_one(st: DecodeState, c: char)
    ensures
        decode_run(st, seq![c]) == decode_step(st, c),
{
    let rest = seq![c].drop_first();
    assert(rest =~= Seq::<char>::empty());
    assert(decode_run(decode_step(st, c), rest) == decode_step(st, c));
    assert(seq![c][0] == c);
}

proof fn lemma_run_snoc(st: DecodeState, s: Seq<char>, c: char)
    ensures
        decode_run(st, s.push(c)) == decode_step(decode_run(st, s), c),
{
    assert(s.push(c) =~= s + seq![c]);
    lemma_run_concat(st, s, seq![c]);
    lemma_run_one(decode_run(st, s), c);
}

proof fn lemma_run_two(st: DecodeState, a: char, b: char)
    ensures
        decode_run(st, seq![a, b]) == decode_step(decode_step(st, a), b),
{
    assert(seq![a, b] =~= seq![a].push(b));
    lemma_run_snoc(st, seq![a], b);
    lemma_run_one(st, a);
}

proof fn lemma_hex_value_of_char(n: int)
    requires
        0 <= n < 16,
    ensures
        hex_digit_value(hex_char(n)) == Some(n),
{
}

/// Reading the written form of one character from inside a string yields
/// exactly that character.
proof fn lemma_run_encoded_char(acc: Seq<Seq<char>>, cur: Seq<char>, c: char)
    ensures
        decode_run(DecodeState::Str(acc, cur), encode_char(c)) == DecodeState::Str(
            acc,
            cur.push(c),
        ),
{
    let st = DecodeState::Str(acc, cur);
    match short_escape(c) {
        Some(e) => {
            lemma_run_two(st, '\\', e);
        },
        None => {
            if c == '"' || c == '\\' {
                lemma_run_two(st, '\\', c);
            } else if is_control(c) {
                let ci = c as int;
                let h1 = hex_char(ci / 16);
                let h2 = hex_char(ci % 16);
                let e = encode_char(c);
                assert(e =~= seq!['\\', 'u'] + seq!['0', '0'] + seq![h1, h2]);
                lemma_run_concat(st, seq!['\\', 'u'] + seq!['0', '0'], seq![h1, h2]);
                lemma_run_concat(st, seq!['\\', 'u'], seq!['0', '0']);
                lemma_run_two(st, '\\', 'u');
                let st1 = DecodeState::Hex(acc, cur, 0, 0);
                lemma_run_two(st1, '0', '0');
                let st2 = DecodeState::Hex(acc, cur, 2, 0);
                assert(0 <= ci < 32);
                assert(ci / 16 == 0 || ci / 16 == 1);
                let st3 = DecodeState::Hex(acc, cur, 3, ci / 16);
                lemma_run_two(st2, h1, h2);
                lemma_hex_value_of_char(ci / 16);
                assert(decode_step(st2, h1) == st3);
                lemma_hex_value_of_char(ci % 16);
                assert((ci / 16) * 16 + ci % 16 == ci);
                assert(decode_step(st3, h2) == DecodeState::Str(acc, cur.push(c)));
            } else {
                lemma_run_one(st, c);
            }
        },
    }
}

/// Reading the written body of a string appends that string to the one being
/// gathered.
proof fn lemma_run_body(acc: Seq<Seq<char>>, cur: Seq<char>, s: Seq<char>)
    ensures
        decode_run(DecodeState::Str(acc, cur), encode_body(s)) == DecodeState::Str(acc, cur + s),
    decreases s.len(),
{
    if s.len() == 0 {
        assert(cur + s =~= cur);
    } else {
        lemma_run_concat(
            DecodeState::Str(acc, cur),
            encode_char(s[0]),
            encode_body(s.drop_first()),
        );
        lemma_run_encoded_char(acc, cur, s[0]);
        lemma_run_body(acc, cur.push(s[0]), s.drop_first());
        assert(cur.push(s[0]) + s.drop_first() =~= cur + s);
    }
}

/// Reading one whole quoted string finishes it.
proof fn lemma_run_quoted(acc: Seq<Seq<char>>, x: Seq<char>)
    ensures
        decode_run(DecodeState::Elem(acc), quoted(x)) == DecodeState::Sep(acc.push(x)),
{
    let st = DecodeState::Elem(acc);
    assert(quoted(x) =~= seq!['"'] + (encode_body(x) + seq!['"']));
    lemma_run_concat(st, seq!['"'], encode_body(x) + seq!['"']);
    lemma_run_one(st, '"');
    let st1 = DecodeState::Str(acc, Seq::empty());
    lemma_run_concat(st1, encode_body(x), seq!['"']);
    lemma_run_body(acc, Seq::empty(), x);
    assert(Seq::empty() + x =~= x);
    lemma_run_one(DecodeState::Str(acc, x), '"');
}

/// Reading the written text of every finished string, comma included, gathers
/// exactly those strings.
proof fn lemma_run_prefix(acc: Seq<Seq<char>>)
    ensures
        decode_run(DecodeState::Start, list_prefix(acc)) == DecodeState::Elem(acc),
    decreases acc.len(),
{
    if acc.len() == 0 {
        lemma_run_one(DecodeState::Start, '[');
        assert(decode_run(DecodeState::Start, list_prefix(acc)) == DecodeState::Elem(
            Seq::<Seq<char>>::empty(),
        ));
        assert(acc =~= Seq::<Seq<char>>::empty());
    } else {
        let d = acc.drop_last();
        lemma_run_prefix(d);
        lemma_run_concat(DecodeState::Start, list_prefix(d) + quoted(acc.last()), seq![',']);
        lemma_run_concat(DecodeState::Start, list_prefix(d), quoted(acc.last()));
        lemma_run_quoted(d, acc.last());
        assert(d.push(acc.last()) =~= acc);
        lemma_run_one(DecodeState::Sep(acc), ',');
        assert(list_prefix(acc) =~= (list_prefix(d) + quoted(acc.last())) + seq![',']);
    }
}


proof fn lemma_encode_body_snoc(s: Seq<char>, c: char)
    ensures
        encode_body(s.push(c)) == encode_body(s) + encode_char(c),
    decreases s.len(),
{
    if s.len() == 0 {
        assert(s.push(c).drop_first() =~= Seq::<char>::empty());
        assert(s.push(c)[0] == c);
        assert(encode_body(Seq::<char>::empty()) =~= Seq::<char>::empty());
        assert(encode_body(s.push(c)) =~= encode_char(c) + encode_body(Seq::<char>::empty()));
        assert(encode_body(s.push(c)) =~= encode_char(c));
        assert(encode_body(s) + encode_char(c) =~= encode_char(c));
    } else {
        assert(s.push(c).drop_first() =~= s.drop_first().push(c));
        assert(s.push(c)[0] == s[0]);
        lemma_encode_body_snoc(s.drop_first(), c);
        assert(encode_body(s.push(c)) =~= encode_body(s) + encode_char(c));
    }
}

/// Relies on String::push: appends the given character at the end of the
/// string.
#[verifier::external_body]
fn push_char(out: &mut String, c: char)
    ensures
        final(out)@ == old(out)@.push(c),
{
    out.push(c);
}

/// The lower-case hexadecimal digit of a value below 16.
fn hex_char_of(n: u32) -> (c: char)
    requires
        n < 16,
    ensures
        c == hex_char(n as int),
{
    if n == 0 {
        '0'
    } else if n == 1 {
        '1'
    } else if n == 2 {
        '2'
    } else if n == 3 {
        '3'
    } else if n == 4 {
        '4'
    } else if n == 5 {
        '5'
    } else if n == 6 {
        '6'
    } else if n == 7 {
        '7'
    } else if n == 8 {
        '8'
    } else if n == 9 {
        '9'
    } else if n == 10 {
        'a'
    } else if n == 11 {
        'b'
    } else if n == 12 {
        'c'
    } else if n == 13 {
        'd'
    } else if n == 14 {
        'e'
    } else {
        'f'
    }
}

/// The value of a hexadecimal digit, in either letter case.
fn hex_value_of(c: char) -> (r: Option<u8>)
    ensures
        match r {
            Some(d) => hex_digit_value(c) == Some(d as int) && d < 16,
            None => hex_digit_value(c) is None,
        },
{
    if c == '0' {
        Some(0)
    } else if c == '1' {
        Some(1)
    } else if c == '2' {
        Some(2)
    } else if c == '3' {
        Some(3)
    } else if c == '4' {
        Some(4)
    } else if c == '5' {
        Some(5)
    } else if c == '6' {
        Some(6)
    } else if c == '7' {
        Some(7)
    } else if c == '8' {
        Some(8)
    } else if c == '9' {
        Some(9)
    } else if c == 'a' || c == 'A' {
        Some(10)
    } else if c == 'b' || c == 'B' {
        Some(11)
    } else if c == 'c' || c == 'C' {
        Some(12)
    } else if c == 'd' || c == 'D' {
        Some(13)
    } else if c == 'e' || c == 'E' {
        Some(14)
    } else if c == 'f' || c == 'F' {
        Some(15)
    } else {
        None
    }
}

/// Relies on char::from_u32: for a Unicode scalar value — below the
/// surrogate range, or past it and at most 0x10FFFF — it returns the
/// character with exactly that value.
#[verifier::external_body]
fn char_from_code(code: u32) -> (c: char)
    requires
        code < 0xD800 || (0xE000 <= code && code <= 0x10FFFF),
    ensures
        c == ((code as int) as char),
{
    char::from_u32(code).unwrap()
}

/// Writes one character of a string body in its escaped form.
fn push_encoded_char(out: &mut String, c: char)
    ensures
        final(out)@ == old(out)@ + encode_char(c),
{
    if c == '"' {
        push_char(out, '\\');
        push_char(out, '"');
        assert(final(out)@ =~= old(out)@ + encode_char(c));
    } else if c == '\\' {
        push_char(out, '\\');
        push_char(out, '\\');
        assert(final(out)@ =~= old(out)@ + encode_char(c));
    } else if c == '\u{8}' {
        push_char(out, '\\');
        push_char(out, 'b');
        assert(final(out)@ =~= old(out)@ + encode_char(c));
    } else if c == '\t' {
        push_char(out, '\\');
        push_char(out, 't');
        assert(final(out)@ =~= old(out)@ + encode_char(c));
    } else if c == '\n' {
        push_char(out, '\\');
        push_char(out, 'n');
        assert(final(out)@ =~= old(out)@ + encode_char(c));
    } else if c == '\u{c}' {
        push_char(out, '\\');
        push_char(out, 'f');
        assert(final(out)@ =~= old(out)@ + encode_char(c));
    } else if c == '\r' {
        push_char(out, '\\');
        push_char(out, 'r');
        assert(final(out)@ =~= old(out)@ + encode_char(c));
    } else if (c as u32) < 32 {
        let code: u32 = c as u32;
        push_char(out, '\\');
        push_char(out, 'u');
        push_char(out, '0');
        push_char(out, '0');
        push_char(out, hex_char_of(code / 16));
        push_char(out, hex_char_of(code % 16));
        assert(final(out)@ =~= old(out)@ + encode_char(c));
    } else {
        push_char(out, c);
        assert(final(out)@ =~= old(out)@ + encode_char(c));
    }
}

/// Writes the pending tasks in their persisted form: every string quoted and
/// escaped, between brackets and separated by commas.
pub fn encode_tasks(items: &Vec<String>) -> (r: String)
    ensures
        r@ == encode_list(items.deep_view()),
{
    let ghost l = items.deep_view();
    let mut out = String::new();
    push_char(&mut out, '[');
    assert(out@ =~= list_prefix(Seq::empty()));
    let n: usize = items.len();
    let mut i: usize = 0;
    while i < n
        invariant
            i <= n,
            n == items@.len(),
            l == items.deep_view(),
            out@ == (if i == 0 {
                seq!['[']
            } else {
                list_prefix(l.take(i - 1)) + quoted(l[i - 1])
            }),
        decreases n - i,
    {
        if i > 0 {
            push_char(&mut out, ',');
            proof {
                assert(l.take(i as int).drop_last() =~= l.take(i - 1));
                assert(l.take(i as int).last() == l[i - 1]);
                assert(out@ =~= list_prefix(l.take(i as int)));
            }
        } else {
            assert(l.take(0int) =~= Seq::<Seq<char>>::empty());
            assert(out@ =~= list_prefix(l.take(0int)));
        }
        let ghost base = out@;
        assert(base == list_prefix(l.take(i as int)));
        push_char(&mut out, '"');
        let item: &String = &items[i];
        assert(item@ == l[i as int]);
        let m: usize = item.as_str().unicode_len();
        let mut j: usize = 0;
        assert(encode_body(item@.take(0int)) =~= Seq::<char>::empty()) by {
            assert(item@.take(0int) =~= Seq::<char>::empty());
        }
        assert(out@ =~= base + seq!['"'] + encode_body(item@.take(0int)));
        while j < m
            invariant
                j <= m,
                m == item@.len(),
                out@ == base + seq!['"'] + encode_body(item@.take(j as int)),
            decreases m - j,
        {
            let c: char = item.as_str().get_char(j);
            push_encoded_char(&mut out, c);
            proof {
                lemma_encode_body_snoc(item@.take(j as int), c);
                assert(item@.take(j as int).push(c) =~= item@.take(j + 1));
                assert(out@ =~= base + seq!['"'] + encode_body(item@.take(j + 1)));
            }
            j += 1;
        }
        assert(item@.take(m as int) =~= item@);
        push_char(&mut out, '"');
        proof {
            assert(out@ =~= base + quoted(item@));
            assert(out@ =~= list_prefix(l.take(i as int)) + quoted(l[i as int]));
        }
        i += 1;
    }
    push_char(&mut out, ']');
    proof {
        if n == 0 {
            assert(l =~= Seq::<Seq<char>>::empty());
            assert(out@ =~= encode_list(l));
        } else {
            assert(l.take(n - 1) =~= l.drop_last());
            assert(l[n - 1] == l.last());
            assert(out@ =~= encode_list(l));
        }
    }
    out
}

/// The decoder's position, as the running code keeps it; the gathered
/// strings, the current string body, the hex value being read and a pending
/// leading surrogate live in their own variables.
enum Mode {
    AtStart,
    AtElem,
    InStr,
    AfterBackslash,
    HexDigits0,
    HexDigits1,
    HexDigits2,
    HexDigits3,
    SurSlash,
    SurU,
    SurHexDigits0,
    SurHexDigits1,
    SurHexDigits2,
    SurHexDigits3,
    AfterStr,
    AtEnd,
}

/// The decoder state that a mode and the gathered values stand for.
spec fn abs_state(m: Mode, acc: Seq<Seq<char>>, cur: Seq<char>, hv: int, hi: int) -> DecodeState {
    match m {
        Mode::AtStart => DecodeState::Start,
        Mode::AtElem => DecodeState::Elem(acc),
        Mode::InStr => DecodeState::Str(acc, cur),
        Mode::AfterBackslash => DecodeState::Esc(acc, cur),
        Mode::HexDigits0 => DecodeState::Hex(acc, cur, 0, hv),
        Mode::HexDigits1 => DecodeState::Hex(acc, cur, 1, hv),
        Mode::HexDigits2 => DecodeState::Hex(acc, cur, 2, hv),
        Mode::HexDigits3 => DecodeState::Hex(acc, cur, 3, hv),
        Mode::SurSlash => DecodeState::SurEsc(acc, cur, hi),
        Mode::SurU => DecodeState::SurEscU(acc, cur, hi),
        Mode::SurHexDigits0 => DecodeState::SurHex(acc, cur, hi, 0, hv),
        Mode::SurHexDigits1 => DecodeState::SurHex(acc, cur, hi, 1, hv),
        Mode::SurHexDigits2 => DecodeState::SurHex(acc, cur, hi, 2, hv),
        Mode::SurHexDigits3 => DecodeState::SurHex(acc, cur, hi, 3, hv),
        Mode::AfterStr => DecodeState::Sep(acc),
        Mode::AtEnd => DecodeState::Done(acc),
    }
}

/// A run that failed on a prefix fails on the whole text.
proof fn lemma_fail_stays(st: DecodeState, s: Seq<char>)
    requires
        st is Fail,
    ensures
        decode_run(st, s) is Fail,
    decreases s.len(),
{
    if s.len() > 0 {
        lemma_fail_stays(decode_step(st, s[0]), s.drop_first());
    }
}

proof fn lemma_fail_prefix(s: Seq<char>, i: int)
    requires
        0 <= i <= s.len(),
        decode_run(DecodeState::Start, s.take(i)) is Fail,
    ensures
        decode_run(DecodeState::Start, s) is Fail,
{
    assert(s =~= s.take(i) + s.skip(i));
    lemma_run_concat(DecodeState::Start, s.take(i), s.skip(i));
    lemma_fail_stays(decode_run(DecodeState::Start, s.take(i)), s.skip(i));
}

/// Reads a written list of strings back, in any JSON spelling: whitespace
/// between tokens and every escape form are accepted. Returns `None` exactly
/// when the text lies outside the grammar of an array of strings.
pub fn decode_tasks(s: &str) -> (r: Option<Vec<String>>)
    ensures
        match r {
            Some(v) => decode_spec(s@) == Some(v.deep_view()),
            None => decode_spec(s@) is None,
        },
{
    let n: usize = s.unicode_len();
    let mut mode = Mode::AtStart;
    let mut acc: Vec<String> = Vec::new();
    let mut cur: String = String::new();
    let mut hv: u16 = 0;
    let mut hi: u16 = 0;
    let mut i: usize = 0;
    assert(acc.deep_view() =~= Seq::<Seq<char>>::empty());
    assert(s@.take(0int) =~= Seq::<char>::empty());
    while i < n
        invariant
            i <= n,
            n == s@.len(),
            mode matches Mode::AtStart ==> acc@.len() == 0,
            mode matches Mode::HexDigits0 ==> hv == 0,
            mode matches Mode::SurHexDigits0 ==> hv == 0,
            mode matches Mode::HexDigits1 ==> hv < 16,
            mode matches Mode::HexDigits2 ==> hv < 256,
            mode matches Mode::HexDigits3 ==> hv < 4096,
            mode matches Mode::SurHexDigits1 ==> hv < 16,
            mode matches Mode::SurHexDigits2 ==> hv < 256,
            mode matches Mode::SurHexDigits3 ==> hv < 4096,
            (mode matches Mode::SurSlash || mode matches Mode::SurU || mode
                matches Mode::SurHexDigits0 || mode matches Mode::SurHexDigits1 || mode
                matches Mode::SurHexDigits2 || mode matches Mode::SurHexDigits3) ==> (0xD800 <= hi
                && hi < 0xDC00),
            decode_run(DecodeState::Start, s@.take(i as int)) == abs_state(
                mode,
                acc.deep_view(),
                cur@,
                hv as int,
                hi as int,
            ),
        decreases n - i,
    {
        let ghost pre_state = abs_state(mode, acc.deep_view(), cur@, hv as int, hi as int);
        let c: char = s.get_char(i);
        proof {
            lemma_run_snoc(DecodeState::Start, s@.take(i as int), c);
            assert(s@.take(i as int).push(c) =~= s@.take(i + 1));
        }
        let is_space: bool = c == ' ' || c == '\t' || c == '\n' || c == '\r';
        let mut failed: bool = false;
        match mode {
            Mode::AtStart => {
                if is_space {
                } else if c == '[' {
                    proof {
                        assert(acc.deep_view() =~= Seq::<Seq<char>>::empty());
                    }
                    mode = Mode::AtElem;
                } else {
                    failed = true;
                }
            },
            Mode::AtElem => {
                if is_space {
                } else if c == '"' {
                    cur = String::new();
                    mode = Mode::InStr;
                } else if c == ']' && acc.len() == 0 {
                    proof {
                        assert(acc.deep_view().len() == acc@.len());
                    }
                    mode = Mode::AtEnd;
                } else {
                    failed = true;
                    proof {
                        assert(acc.deep_view().len() == acc@.len());
                    }
                }
            },
            Mode::InStr => {
                if c == '"' {
                    let ghost old_acc = acc.deep_view();
                    let ghost done = cur@;
                    acc.push(cur);
                    cur = String::new();
                    proof {
                        assert(acc.deep_view() =~= old_acc.push(done));
                    }
                    mode = Mode::AfterStr;
                } else if c == '\\' {
                    mode = Mode::AfterBackslash;
                } else if (c as u32) < 32 {
                    failed = true;
                } else {
                    push_char(&mut cur, c);
                }
            },
            Mode::AfterBackslash => {
                if c == '"' {
                    push_char(&mut cur, '"');
                    mode = Mode::InStr;
                } else if c == '\\' {
                    push_char(&mut cur, '\\');
                    mode = Mode::InStr;
                } else if c == '/' {
                    push_char(&mut cur, '/');
                    mode = Mode::InStr;
                } else if c == 'b' {
                    push_char(&mut cur, '\u{8}');
                    mode = Mode::InStr;
                } else if c == 't' {
                    push_char(&mut cur, '\t');
                    mode = Mode::InStr;
                } else if c == 'n' {
                    push_char(&mut cur, '\n');
                    mode = Mode::InStr;
                } else if c == 'f' {
                    push_char(&mut cur, '\u{c}');
                    mode = Mode::InStr;
                } else if c == 'r' {
                    push_char(&mut cur, '\r');
                    mode = Mode::InStr;
                } else if c == 'u' {
                    hv = 0;
                    mode = Mode::HexDigits0;
                } else {
                    failed = true;
                }
            },
            Mode::HexDigits0 => {
                match hex_value_of(c) {
                    Some(d) => {
                        hv = d as u16;
                        mode = Mode::HexDigits1;
                    },
                    None => {
                        failed = true;
                    },
                }
            },
            Mode::HexDigits1 => {
                match hex_value_of(c) {
                    Some(d) => {
                        hv = hv * 16 + d as u16;
                        mode = Mode::HexDigits2;
                    },
                    None => {
                        failed = true;
                    },
                }
            },
            Mode::HexDigits2 => {
                match hex_value_of(c) {
                    Some(d) => {
                        hv = hv * 16 + d as u16;
                        mode = Mode::HexDigits3;
                    },
                    None => {
                        failed = true;
                    },
                }
            },
            Mode::HexDigits3 => {
                match hex_value_of(c) {
                    Some(d) => {
                        let w: u16 = hv * 16 + d as u16;
                        if w >= 0xD800 && w < 0xDC00 {
                            hi = w;
                            mode = Mode::SurSlash;
                        } else if w >= 0xDC00 && w < 0xE000 {
                            failed = true;
                        } else {
                            let decoded: char = char_from_code(w as u32);
                            proof {
                                assert((w as u32) as int == w as int);
                                assert(decoded == ((w as int) as char));
                            }
                            push_char(&mut cur, decoded);
                            mode = Mode::InStr;
                        }
                    },
                    None => {
                        failed = true;
                    },
                }
            },
            Mode::SurSlash => {
                if c == '\\' {
                    mode = Mode::SurU;
                } else {
                    failed = true;
                }
            },
            Mode::SurU => {
                if c == 'u' {
                    hv = 0;
                    mode = Mode::SurHexDigits0;
                } else {
                    failed = true;
                }
            },
            Mode::SurHexDigits0 => {
                match hex_value_of(c) {
                    Some(d) => {
                        hv = d as u16;
                        mode = Mode::SurHexDigits1;
                    },
                    None => {
                        failed = true;
                    },
                }
            },
            Mode::SurHexDigits1 => {
                match hex_value_of(c) {
                    Some(d) => {
                        hv = hv * 16 + d as u16;
                        mode = Mode::SurHexDigits2;
                    },
                    None => {
                        failed = true;
                    },
                }
            },
            Mode::SurHexDigits2 => {
                match hex_value_of(c) {
                    Some(d) => {
                        hv = hv * 16 + d as u16;
                        mode = Mode::SurHexDigits3;
                    },
                    None => {
                        failed = true;
                    },
                }
            },
            Mode::SurHexDigits3 => {
                match hex_value_of(c) {
                    Some(d) => {
                        let w: u16 = hv * 16 + d as u16;
                        if w >= 0xDC00 && w < 0xE000 {
                            let scalar: u32 = 0x10000 + ((hi as u32) - 0xD800) * 0x400 + ((
                            w as u32) - 0xDC00);
                            proof {
                                assert(scalar as int == 0x10000 + (hi as int - 0xD800) * 0x400 + (
                                w as int - 0xDC00));
                                assert(0x10000 <= scalar as int && scalar as int <= 0x10FFFF);
                            }
                            let decoded: char = char_from_code(scalar);
                            proof {
                                assert(decoded == ((scalar as int) as char));
                            }
                            push_char(&mut cur, decoded);
                            mode = Mode::InStr;
                        } else {
                            failed = true;
                        }
                    },
                    None => {
                        failed = true;
                    },
                }
            },
            Mode::AfterStr => {
                if is_space {
                } else if c == ',' {
                    mode = Mode::AtElem;
                } else if c == ']' {
                    mode = Mode::AtEnd;
                } else {
                    failed = true;
                }
            },
            Mode::AtEnd => {
                if is_space {
                } else {
                    failed = true;
                }
            },
        }
        if failed {
            proof {
                assert(decode_step(pre_state, c) is Fail);
                assert(decode_run(DecodeState::Start, s@.take(i + 1)) is Fail);
                lemma_fail_prefix(s@, i + 1);
            }
            return None;
        }
        proof {
            assert(abs_state(mode, acc.deep_view(), cur@, hv as int, hi as int) == decode_step(
                pre_state,
                c,
            ));
        }
        i += 1;
    }
    assert(s@.take(n as int) =~= s@);
    match mode {
        Mode::AtEnd => Some(acc),
        _ => None,
    }
}

/// Reads the stored text of the pending list: an empty file stands for the
/// empty list, and any other content must be an array of strings in some
/// JSON spelling. `None` says the content is malformed.
pub fn load_tasks(content: &str) -> (r: Option<Vec<String>>)
    ensures
        content@.len() == 0 ==> (r matches Some(v) && v.deep_view()
            == Seq::<Seq<char>>::empty()),
        content@.len() > 0 ==> match r {
            Some(v) => decode_spec(content@) == Some(v.deep_view()),
            None => decode_spec(content@) is None,
        },
{
    if content.is_empty() {
        let empty: Vec<String> = Vec::new();
        assert(empty.deep_view() =~= Seq::<Seq<char>>::empty());
        Some(empty)
    } else {
        decode_tasks(content)
    }
}

/// Decoding is a proved inverse of encoding: the written form of any list of
/// strings, the empty list included, decodes back to exactly that list. The
/// written form is never the empty text, so a loader that reads an empty
/// file as the empty list still returns exactly the saved list.
pub proof fn lemma_encode_decode_roundtrip(l: Seq<Seq<char>>)
    ensures
        decode_spec(encode_list(l)) == Some(l),
        encode_list(l).len() >= 2,
{
    if l.len() == 0 {
        lemma_run_two(DecodeState::Start, '[', ']');
        assert(encode_list(l) =~= seq!['[', ']']);
        assert(decode_run(DecodeState::Start, encode_list(l)) == DecodeState::Done(
            Seq::<Seq<char>>::empty(),
        ));
        assert(l =~= Seq::<Seq<char>>::empty());
    } else {
        let d = l.drop_last();
        assert(encode_list(l) =~= (list_prefix(d) + quoted(l.last())) + seq![']']);
        lemma_run_concat(DecodeState::Start, list_prefix(d) + quoted(l.last()), seq![']']);
        lemma_run_concat(DecodeState::Start, list_prefix(d), quoted(l.last()));
        lemma_run_prefix(d);
        lemma_run_quoted(d, l.last());
        assert(d.push(l.last()) =~= l);
        lemma_run_one(DecodeState::Sep(l), ']');
    }
}

/// No two different lists share a written form: the encoder is injective.
pub proof fn lemma_encode_injective(a: Seq<Seq<char>>, b: Seq<Seq<char>>)
    requires
        encode_list(a) == encode_list(b),
    ensures
        a == b,
{
    lemma_encode_decode_roundtrip(a);
    lemma_encode_decode_roundtrip(b);
}

/// Whitespace after the closing bracket changes nothing: a stored text that
/// decodes still decodes to the same list with a trailing space or newline.
pub proof fn lemma_trailing_whitespace(s: Seq<char>, c: char)
    requires
        is_ws(c),
        decode_spec(s) is Some,
    ensures
        decode_spec(s.push(c)) == decode_spec(s),
{
    lemma_run_snoc(DecodeState::Start, s, c);
}

} // verus!

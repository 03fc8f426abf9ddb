//! The wire grammar: a small JSON value tree, its canonical text encoding,
//! and a parser. Messages are framed as one JSON value followed by a single
//! `0x00` delimiter byte; this module owns the text between the delimiters.

use vstd::prelude::*;

verus! {

/// A JSON value as this wire protocol uses it: no booleans and no floats
/// appear in any control-plane message, and numbers are signed integers.
#[derive(Debug)]
pub enum Json {
    Null,
    Num(i64),
    Text(String),
    Arr(Vec<Json>),
    Obj(Vec<(String, Json)>),
}

/// Mathematical model of a [`Json`] value.
pub enum JsonV {
    Null,
    Num(int),
    Text(Seq<char>),
    Arr(Seq<JsonV>),
    Obj(Seq<(Seq<char>, JsonV)>),
}

/// Model of a [`Json`] value, recursing through the vectors it holds.
pub open spec fn jview(j: Json) -> JsonV
    decreases j, 1int,
{
    match j {
        Json::Null => JsonV::Null,
        Json::Num(n) => JsonV::Num(n as int),
        Json::Text(s) => JsonV::Text(s@),
        Json::Arr(a) => JsonV::Arr(jview_items(a@, 0)),
        Json::Obj(o) => JsonV::Obj(jview_members(o@, 0)),
    }
}

/// Models of the array items from `i` on.
pub open spec fn jview_items(a: Seq<Json>, i: int) -> Seq<JsonV>
    decreases a, a.len() - i,
{
    if i < 0 || i >= a.len() {
        Seq::empty()
    } else {
        seq![jview(a[i])] + jview_items(a, i + 1)
    }
}

/// Models of the object members from `i` on.
pub open spec fn jview_members(o: Seq<(String, Json)>, i: int) -> Seq<(Seq<char>, JsonV)>
    decreases o, o.len() - i,
{
    if i < 0 || i >= o.len() {
        Seq::empty()
    } else {
        seq![(o[i].0@, jview(o[i].1))] + jview_members(o, i + 1)
    }
}

impl View for Json {
    type V = JsonV;

    open spec fn view(&self) -> JsonV {
        jview(*self)
    }
}

/// The decimal digit for `n`, which must lie in `0 .. 10`.
pub open spec fn dec_digit(n: int) -> char {
    if n == 0 {
        '0'
    } else if n == 1 {
        '1'
    } else if n == 2 {
        '2'
    } else if n == 3 {
        '3'
    } else if n == 4 {
        '4'
    } else if n == 5 {
        '5'
    } else if n == 6 {
        '6'
    } else if n == 7 {
        '7'
    } else if n == 8 {
        '8'
    } else {
        '9'
    }
}

/// The lowercase hex digit for `n`, which must lie in `0 .. 16`.
pub open spec fn hex_digit(n: int) -> char {
    if n < 10 {
        dec_digit(n)
    } else if n == 10 {
        'a'
    } else if n == 11 {
        'b'
    } else if n == 12 {
        'c'
    } else if n == 13 {
        'd'
    } else if n == 14 {
        'e'
    } else {
        'f'
    }
}

/// Decimal digits of a nonnegative number, most significant first.
pub open spec fn dec_nat(n: nat) -> Seq<char>
    decreases n,
{
    if n < 10 {
        seq![dec_digit(n as int)]
    } else {
        dec_nat(n / 10) + seq![dec_digit((n % 10) as int)]
    }
}

/// Decimal form of an integer, with a leading `-` when negative.
pub open spec fn dec_int(n: int) -> Seq<char> {
    if n < 0 {
        seq!['-'] + dec_nat((-n) as nat)
    } else {
        dec_nat(n as nat)
    }
}

/// How one character appears inside a string literal: itself, a two-char
/// escape, or a `\u00XX` escape for the remaining control characters.
pub open spec fn esc_char(c: char) -> Seq<char> {
    if c == '"' {
        seq!['\\', '"']
    } else if c == '\\' {
        seq!['\\', '\\']
    } else if c == '\n' {
        seq!['\\', 'n']
    } else if c == '\r' {
        seq!['\\', 'r']
    } else if c == '\t' {
        seq!['\\', 't']
    } else if (c as u32) < 32 {
        seq!['\\', 'u', '0', '0', hex_digit((c as u32 / 16) as int), hex_digit(
            (c as u32 % 16) as int,
        )]
    } else {
        seq![c]
    }
}

/// Body of a string literal: each character escaped as needed.
pub open spec fn esc_str(s: Seq<char>) -> Seq<char>
    decreases s.len(),
{
    if s.len() == 0 {
        Seq::empty()
    } else {
        esc_char(s[0]) + esc_str(s.drop_first())
    }
}

/// A whole string literal with its quotes.
pub open spec fn text_lit(s: Seq<char>) -> Seq<char> {
    seq!['"'] + esc_str(s) + seq!['"']
}

/// Canonical text of a JSON value: no whitespace, object members in the
/// order they are held.
pub open spec fn penc(j: JsonV) -> Seq<char>
    decreases j, 1int,
{
    match j {
        JsonV::Null => "null"@,
        JsonV::Num(n) => dec_int(n),
        JsonV::Text(s) => text_lit(s),
        JsonV::Arr(a) => seq!['['] + penc_items(a, 0) + seq![']'],
        JsonV::Obj(o) => seq!['{'] + penc_members(o, 0) + seq!['}'],
    }
}

/// Comma-separated encodings of the array items from `i` on.
pub open spec fn penc_items(a: Seq<JsonV>, i: int) -> Seq<char>
    decreases a, a.len() - i,
{
    if i < 0 || i >= a.len() {
        Seq::empty()
    } else if i == a.len() - 1 {
        penc(a[i])
    } else {
        penc(a[i]) + seq![','] + penc_items(a, i + 1)
    }
}

/// Comma-separated `"key":value` encodings of the members from `i` on.
pub open spec fn penc_members(o: Seq<(Seq<char>, JsonV)>, i: int) -> Seq<char>
    decreases o, o.len() - i,
{
    if i < 0 || i >= o.len() {
        Seq::empty()
    } else if i == o.len() - 1 {
        text_lit(o[i].0) + seq![':'] + penc(o[i].1)
    } else {
        text_lit(o[i].0) + seq![':'] + penc(o[i].1) + seq![','] + penc_members(o, i + 1)
    }
}

/// The items view taken at `i` lists the models of `a[i..]`.
pub proof fn lemma_jview_items_index(a: Seq<Json>, i: int)
    requires
        0 <= i <= a.len(),
    ensures
        jview_items(a, i).len() == a.len() - i,
        forall|k: int|
            0 <= k < a.len() - i ==> #[trigger] jview_items(a, i)[k] == jview(a[i + k]),
    decreases a.len() - i,
{
    if i < a.len() {
        lemma_jview_items_index(a, i + 1);
    }
}

/// The members view taken at `i` lists the models of `o[i..]`.
pub proof fn lemma_jview_members_index(o: Seq<(String, Json)>, i: int)
    requires
        0 <= i <= o.len(),
    ensures
        jview_members(o, i).len() == o.len() - i,
        forall|k: int|
            0 <= k < o.len() - i ==> #[trigger] jview_members(o, i)[k] == (
            o[i + k].0@,
            jview(o[i + k].1),
            ),
    decreases o.len() - i,
{
    if i < o.len() {
        lemma_jview_members_index(o, i + 1);
    }
}

/// Relies on `String::push`: appends the one character to the string.
#[verifier::external_body]
pub fn push_char(out: &mut String, c: char)
    ensures
        final(out)@ == old(out)@ + seq![c],
{
    out.push(c);
}

/// The decimal digit character for `d < 10`.
fn dec_digit_char(d: u64) -> (c: char)
    requires
        d < 10,
    ensures
        c == dec_digit(d as int),
{
    match d {
        0 => '0',
        1 => '1',
        2 => '2',
        3 => '3',
        4 => '4',
        5 => '5',
        6 => '6',
        7 => '7',
        8 => '8',
        _ => '9',
    }
}

/// The lowercase hex digit character for `d < 16`.
fn hex_digit_char(d: u32) -> (c: char)
    requires
        d < 16,
    ensures
        c == hex_digit(d as int),
{
    match d {
        0 => '0',
        1 => '1',
        2 => '2',
        3 => '3',
        4 => '4',
        5 => '5',
        6 => '6',
        7 => '7',
        8 => '8',
        9 => '9',
        10 => 'a',
        11 => 'b',
        12 => 'c',
        13 => 'd',
        14 => 'e',
        _ => 'f',
    }
}

/// Appends the decimal digits of `m`.
pub fn write_u64_text(m: u64, out: &mut String)
    ensures
        final(out)@ == old(out)@ + dec_nat(m as nat),
    decreases m,
{
    if m < 10 {
        let c = dec_digit_char(m);
        push_char(out, c);
    } else {
        write_u64_text(m / 10, out);
        let c = dec_digit_char(m % 10);
        push_char(out, c);
    }
}

/// Appends the decimal form of `n`, sign included.
pub fn write_i64_text(n: i64, out: &mut String)
    ensures
        final(out)@ == old(out)@ + dec_int(n as int),
{
    if n >= 0 {
        write_u64_text(n as u64, out);
    } else {
        push_char(out, '-');
        let m: u64 = if n == i64::MIN {
            9223372036854775808u64
        } else {
            (-n) as u64
        };
        assert(m as nat == (-(n as int)) as nat);
        write_u64_text(m, out);
    }
}

/// Appends the escape of one character.
fn write_esc_char(c: char, out: &mut String)
    ensures
        final(out)@ == old(out)@ + esc_char(c),
{
    if c == '"' {
        push_char(out, '\\');
        push_char(out, '"');
    } else if c == '\\' {
        push_char(out, '\\');
        push_char(out, '\\');
    } else if c == '\n' {
        push_char(out, '\\');
        push_char(out, 'n');
    } else if c == '\r' {
        push_char(out, '\\');
        push_char(out, 'r');
    } else if c == '\t' {
        push_char(out, '\\');
        push_char(out, 't');
    } else if (c as u32) < 32 {
        push_char(out, '\\');
        push_char(out, 'u');
        push_char(out, '0');
        push_char(out, '0');
        let hi = hex_digit_char((c as u32) / 16);
        push_char(out, hi);
        let lo = hex_digit_char((c as u32) % 16);
        push_char(out, lo);
    } else {
        push_char(out, c);
    }
}

/// `esc_str` distributes over appending one character at the end.
proof fn lemma_esc_str_snoc(s: Seq<char>, c: char)
    ensures
        esc_str(s.push(c)) == esc_str(s) + esc_char(c),
    decreases s.len(),
{
    if s.len() == 0 {
        assert(s.push(c)[0] == c);
        assert(s.push(c).drop_first() =~= Seq::<char>::empty());
        assert(esc_str(Seq::<char>::empty()) == Seq::<char>::empty());
        assert(esc_str(s.push(c)) == esc_char(c) + Seq::<char>::empty());
        assert(esc_char(c) + Seq::<char>::empty() =~= esc_char(c));
        assert(esc_str(s) + esc_char(c) =~= esc_char(c));
    } else {
        assert(s.push(c).drop_first() =~= s.drop_first().push(c));
        lemma_esc_str_snoc(s.drop_first(), c);
        assert(s.push(c)[0] == s[0]);
        assert(esc_str(s.push(c)) == esc_char(s[0]) + esc_str(s.drop_first().push(c)));
        assert(esc_char(s[0]) + (esc_str(s.drop_first()) + esc_char(c)) =~= (esc_char(s[0])
            + esc_str(s.drop_first())) + esc_char(c));
    }
}

/// Appends a quoted, escaped string literal.
fn write_text_lit(s: &str, out: &mut String)
    ensures
        final(out)@ == old(out)@ + text_lit(s@),
{
    push_char(out, '"');
    let n = s.unicode_len();
    let mut i: usize = 0;
    while i < n
        invariant
            n == s@.len(),
            0 <= i <= n,
            out@ == old(out)@ + seq!['"'] + esc_str(s@.take(i as int)),
        decreases n - i,
    {
        let c = s.get_char(i);
        write_esc_char(c, out);
        proof {
            assert(s@.take(i as int + 1) =~= s@.take(i as int).push(s@[i as int]));
            lemma_esc_str_snoc(s@.take(i as int), s@[i as int]);
        }
        i = i + 1;
    }
    push_char(out, '"');
    proof {
        assert(s@.take(n as int) =~= s@);
        assert(old(out)@ + text_lit(s@) =~= ((old(out)@ + seq!['"']) + esc_str(s@)) + seq!['"']);
    }
}

/// Appends the canonical text of a JSON value.
pub fn json_write(j: &Json, out: &mut String)
    ensures
        final(out)@ == old(out)@ + penc(jview(*j)),
    decreases *j, 1int,
{
    match j {
        Json::Null => {
            push_char(out, 'n');
            push_char(out, 'u');
            push_char(out, 'l');
            push_char(out, 'l');
            proof {
                reveal_strlit("null");
                assert(old(out)@ + penc(jview(*j)) =~= (((old(out)@ + seq!['n']) + seq!['u'])
                    + seq!['l']) + seq!['l']);
            }
        },
        Json::Num(n) => {
            write_i64_text(*n, out);
        },
        Json::Text(s) => {
            write_text_lit(s.as_str(), out);
        },
        Json::Arr(a) => {
            push_char(out, '[');
            write_items(a, 0, out);
            push_char(out, ']');
            proof {
                assert(old(out)@ + penc(jview(*j)) =~= ((old(out)@ + seq!['[']) + penc_items(
                    jview_items(a@, 0),
                    0,
                )) + seq![']']);
            }
        },
        Json::Obj(o) => {
            push_char(out, '{');
            write_members(o, 0, out);
            push_char(out, '}');
            proof {
                assert(old(out)@ + penc(jview(*j)) =~= ((old(out)@ + seq!['{']) + penc_members(
                    jview_members(o@, 0),
                    0,
                )) + seq!['}']);
            }
        },
    }
}

/// Appends the comma-separated items of `a` from `i` on.
fn write_items(a: &Vec<Json>, i: usize, out: &mut String)
    requires
        i <= a@.len(),
    ensures
        final(out)@ == old(out)@ + penc_items(jview_items(a@, 0), i as int),
    decreases a, a@.len() - i, 0int,
{
    proof {
        lemma_jview_items_index(a@, 0);
    }
    if i < a.len() {
        json_write(&a[i], out);
        if i + 1 < a.len() {
            push_char(out, ',');
            write_items(a, i + 1, out);
            proof {
                assert(final(out)@ =~= old(out)@ + ((penc(jview(a@[i as int])) + seq![','])
                    + penc_items(jview_items(a@, 0), i + 1)));
            }
        } else {
            proof {
                assert(final(out)@ =~= old(out)@ + penc(jview(a@[i as int])));
            }
        }
    } else {
        proof {
            assert(final(out)@ =~= old(out)@ + penc_items(jview_items(a@, 0), i as int));
        }
    }
}

/// Appends the comma-separated members of `o` from `i` on.
fn write_members(o: &Vec<(String, Json)>, i: usize, out: &mut String)
    requires
        i <= o@.len(),
    ensures
        final(out)@ == old(out)@ + penc_members(jview_members(o@, 0), i as int),
    decreases o, o@.len() - i, 0int,
{
    proof {
        lemma_jview_members_index(o@, 0);
    }
    if i < o.len() {
        write_text_lit(o[i].0.as_str(), out);
        push_char(out, ':');
        json_write(&o[i].1, out);
        if i + 1 < o.len() {
            push_char(out, ',');
            write_members(o, i + 1, out);
            proof {
                assert(final(out)@ =~= old(out)@ + ((((text_lit(o@[i as int].0@) + seq![':'])
                    + penc(jview(o@[i as int].1))) + seq![',']) + penc_members(
                    jview_members(o@, 0),
                    i + 1,
                )));
            }
        } else {
            proof {
                assert(final(out)@ =~= old(out)@ + ((text_lit(o@[i as int].0@) + seq![':']) + penc(
                    jview(o@[i as int].1),
                )));
            }
        }
    } else {
        proof {
            assert(final(out)@ =~= old(out)@ + penc_members(jview_members(o@, 0), i as int));
        }
    }
}

/// The canonical text of a JSON value.
pub fn json_to_string(j: &Json) -> (r: String)
    ensures
        r@ == penc(jview(*j)),
{
    let mut out = String::new();
    json_write(j, &mut out);
    out
}

/// Every character is at or above the space character: canonical wire
/// text holds no control characters, so neither the frame delimiter nor a
/// line break can appear inside it.
pub open spec fn printable(s: Seq<char>) -> bool {
    forall|k: int| 0 <= k < s.len() ==> (s[k] as u32) >= 32
}

proof fn lemma_printable_concat(a: Seq<char>, b: Seq<char>)
    requires
        printable(a),
        printable(b),
    ensures
        printable(a + b),
{
    assert forall|k: int| 0 <= k < (a + b).len() implies ((a + b)[k] as u32) >= 32 by {
        if k < a.len() {
            assert((a + b)[k] == a[k]);
        } else {
            assert((a + b)[k] == b[k - a.len()]);
        }
    }
}

proof fn lemma_dec_nat_printable(n: nat)
    ensures
        printable(dec_nat(n)),
    decreases n,
{
    if n >= 10 {
        lemma_dec_nat_printable(n / 10);
        lemma_printable_concat(dec_nat(n / 10), seq![dec_digit((n % 10) as int)]);
    }
}

proof fn lemma_dec_int_printable(n: int)
    ensures
        printable(dec_int(n)),
{
    lemma_dec_nat_printable(if n < 0 {
        (-n) as nat
    } else {
        n as nat
    });
    if n < 0 {
        lemma_printable_concat(seq!['-'], dec_nat((-n) as nat));
    }
}

proof fn lemma_esc_str_printable(s: Seq<char>)
    ensures
        printable(esc_str(s)),
    decreases s.len(),
{
    if s.len() > 0 {
        lemma_esc_str_printable(s.drop_first());
        lemma_printable_concat(esc_char(s[0]), esc_str(s.drop_first()));
    }
}

proof fn lemma_text_lit_printable(s: Seq<char>)
    ensures
        printable(text_lit(s)),
{
    lemma_esc_str_printable(s);
    lemma_printable_concat(seq!['"'], esc_str(s));
    lemma_printable_concat(seq!['"'] + esc_str(s), seq!['"']);
}

/// Canonical wire text never holds a control character.
pub proof fn lemma_penc_printable(j: JsonV)
    ensures
        printable(penc(j)),
    decreases j, 1int,
{
    match j {
        JsonV::Null => {
            reveal_strlit("null");
            assert(printable("null"@)) by {
                assert("null"@.len() == 4);
                assert("null"@[0] == 'n' && "null"@[1] == 'u' && "null"@[2] == 'l' && "null"@[3]
                    == 'l');
            }
        },
        JsonV::Num(n) => {
            lemma_dec_int_printable(n);
        },
        JsonV::Text(s) => {
            lemma_text_lit_printable(s);
        },
        JsonV::Arr(a) => {
            lemma_penc_items_printable(a, 0);
            lemma_printable_concat(seq!['['], penc_items(a, 0));
            lemma_printable_concat(seq!['['] + penc_items(a, 0), seq![']']);
        },
        JsonV::Obj(o) => {
            lemma_penc_members_printable(o, 0);
            lemma_printable_concat(seq!['{'], penc_members(o, 0));
            lemma_printable_concat(seq!['{'] + penc_members(o, 0), seq!['}']);
        },
    }
}

proof fn lemma_penc_items_printable(a: Seq<JsonV>, i: int)
    ensures
        printable(penc_items(a, i)),
    decreases a, a.len() - i, 0int,
{
    if 0 <= i < a.len() {
        lemma_penc_printable(a[i]);
        if i < a.len() - 1 {
            lemma_penc_items_printable(a, i + 1);
            lemma_printable_concat(penc(a[i]), seq![',']);
            lemma_printable_concat(penc(a[i]) + seq![','], penc_items(a, i + 1));
        }
    }
}

proof fn lemma_penc_members_printable(o: Seq<(Seq<char>, JsonV)>, i: int)
    ensures
        printable(penc_members(o, i)),
    decreases o, o.len() - i, 0int,
{
    if 0 <= i < o.len() {
        lemma_text_lit_printable(o[i].0);
        lemma_penc_printable(o[i].1);
        lemma_printable_concat(text_lit(o[i].0), seq![':']);
        lemma_printable_concat(text_lit(o[i].0) + seq![':'], penc(o[i].1));
        if i < o.len() - 1 {
            lemma_penc_members_printable(o, i + 1);
            lemma_printable_concat(
                (text_lit(o[i].0) + seq![':']) + penc(o[i].1),
                seq![','],
            );
            lemma_printable_concat(
                ((text_lit(o[i].0) + seq![':']) + penc(o[i].1)) + seq![','],
                penc_members(o, i + 1),
            );
        }
    }
}

/// Insignificant whitespace between tokens.
pub open spec fn is_ws(c: char) -> bool {
    c == ' ' || c == '\t' || c == '\n' || c == '\r'
}

/// How many whitespace characters stand at `pos`.
pub open spec fn ws_len(s: Seq<char>, pos: int) -> nat
    decreases s.len() - pos,
{
    if pos < 0 || pos >= s.len() || !is_ws(s[pos]) {
        0
    } else {
        1 + ws_len(s, pos + 1)
    }
}

pub open spec fn is_digit(c: char) -> bool {
    48 <= (c as u32) && (c as u32) <= 57
}

pub open spec fn digit_val(c: char) -> int {
    (c as u32) - 48
}

/// The value of a hex digit, or -1 when `c` is none.
pub open spec fn hex_val(c: char) -> int {
    if is_digit(c) {
        digit_val(c)
    } else if 'a' <= c && c <= 'f' {
        (c as u32) - 87
    } else if 'A' <= c && c <= 'F' {
        (c as u32) - 55
    } else {
        -1
    }
}

/// Greedy decimal scan from `pos` with accumulator `acc`: the value read and
/// the count of digits consumed.
pub open spec fn pdigits(s: Seq<char>, pos: int, acc: nat) -> (nat, nat)
    decreases s.len() - pos,
{
    if pos < 0 || pos >= s.len() || !is_digit(s[pos]) {
        (acc, 0)
    } else {
        let r = pdigits(s, pos + 1, acc * 10 + digit_val(s[pos]) as nat);
        (r.0, r.1 + 1)
    }
}

/// Largest magnitude a wire number may carry.
pub open spec fn num_max() -> nat {
    0x7fff_ffff_ffff_ffff as nat
}

/// A number token at `pos`: optional `-`, then digits. Yields the value and
/// the characters consumed, or `None` when no digit follows, or the
/// magnitude leaves `-num_max() .. num_max()`.
pub open spec fn pnum(s: Seq<char>, pos: int) -> Option<(int, nat)> {
    if 0 <= pos < s.len() && s[pos] == '-' {
        let r = pdigits(s, pos + 1, 0);
        if r.1 == 0 || r.0 > num_max() {
            Option::None
        } else {
            Option::Some((-(r.0 as int), r.1 + 1))
        }
    } else {
        let r = pdigits(s, pos, 0);
        if r.1 == 0 || r.0 > num_max() {
            Option::None
        } else {
            Option::Some((r.0 as int, r.1))
        }
    }
}

/// A string body from `pos` (just past the opening quote) to the closing
/// quote: the decoded content and the characters consumed, closing quote
/// included.
pub open spec fn pstring(s: Seq<char>, pos: int) -> Option<(Seq<char>, nat)>
    decreases s.len() - pos,
{
    if pos < 0 || pos >= s.len() {
        Option::None
    } else if s[pos] == '"' {
        Option::Some((Seq::empty(), 1))
    } else if s[pos] == '\\' {
        if pos + 1 >= s.len() {
            Option::None
        } else {
            let e = s[pos + 1];
            if e == 'u' {
                if pos + 6 > s.len() {
                    Option::None
                } else {
                    let h = hex_val(s[pos + 2]) * 4096 + hex_val(s[pos + 3]) * 256 + hex_val(
                        s[pos + 4],
                    ) * 16 + hex_val(s[pos + 5]);
                    if hex_val(s[pos + 2]) < 0 || hex_val(s[pos + 3]) < 0 || hex_val(s[pos + 4])
                        < 0 || hex_val(s[pos + 5]) < 0 {
                        Option::None
                    } else if 0xD800 <= h < 0xDC00 {
                        // A high surrogate: the low half must follow, and
                        // the pair names one supplementary character.
                        if pos + 12 > s.len() || s[pos + 6] != '\\' || s[pos + 7] != 'u' {
                            Option::None
                        } else {
                            let h2 = hex_val(s[pos + 8]) * 4096 + hex_val(s[pos + 9]) * 256
                                + hex_val(s[pos + 10]) * 16 + hex_val(s[pos + 11]);
                            if hex_val(s[pos + 8]) < 0 || hex_val(s[pos + 9]) < 0 || hex_val(
                                s[pos + 10],
                            ) < 0 || hex_val(s[pos + 11]) < 0 || !(0xDC00 <= h2 < 0xE000) {
                                Option::None
                            } else {
                                let cp = 0x10000 + (h - 0xD800) * 0x400 + (h2 - 0xDC00);
                                match pstring(s, pos + 12) {
                                    Option::None => Option::None,
                                    Option::Some((t, n)) => Option::Some(
                                        (seq![(cp as u32) as char] + t, n + 12),
                                    ),
                                }
                            }
                        }
                    } else if 0xDC00 <= h < 0xE000 {
                        Option::None
                    } else {
                        match pstring(s, pos + 6) {
                            Option::None => Option::None,
                            Option::Some((t, n)) => Option::Some(
                                (seq![(h as u32) as char] + t, n + 6),
                            ),
                        }
                    }
                }
            } else {
                let c = if e == '"' {
                    Option::Some('"')
                } else if e == '\\' {
                    Option::Some('\\')
                } else if e == '/' {
                    Option::Some('/')
                } else if e == 'n' {
                    Option::Some('\n')
                } else if e == 'r' {
                    Option::Some('\r')
                } else if e == 't' {
                    Option::Some('\t')
                } else if e == 'b' {
                    Option::Some('\u{8}')
                } else if e == 'f' {
                    Option::Some('\u{c}')
                } else {
                    Option::None
                };
                match c {
                    Option::None => Option::None,
                    Option::Some(cc) => match pstring(s, pos + 2) {
                        Option::None => Option::None,
                        Option::Some((t, n)) => Option::Some((seq![cc] + t, n + 2)),
                    },
                }
            }
        }
    } else {
        match pstring(s, pos + 1) {
            Option::None => Option::None,
            Option::Some((t, n)) => Option::Some((seq![s[pos]] + t, n + 1)),
        }
    }
}

/// A value at `pos`: leading whitespace, then one JSON value. Yields the
/// value and the characters consumed, trailing whitespace excluded.
pub open spec fn pval(s: Seq<char>, pos: int) -> Option<(JsonV, nat)>
    decreases s.len() - pos, 0int,
{
    if pos < 0 || pos > s.len() {
        Option::None
    } else {
        let w = ws_len(s, pos);
        if pos + w >= s.len() {
            Option::None
        } else {
            let c = s[pos + w];
            if c == 'n' {
                if pos + w + 4 <= s.len() && s[pos + w + 1] == 'u' && s[pos + w + 2] == 'l' && s[
                    pos + w + 3
                ] == 'l' {
                    Option::Some((JsonV::Null, w + 4))
                } else {
                    Option::None
                }
            } else if c == '"' {
                match pstring(s, pos + w + 1) {
                    Option::None => Option::None,
                    Option::Some((t, n)) => Option::Some((JsonV::Text(t), w + 1 + n)),
                }
            } else if c == '-' || is_digit(c) {
                match pnum(s, pos + w) {
                    Option::None => Option::None,
                    Option::Some((v, n)) => Option::Some((JsonV::Num(v), w + n)),
                }
            } else if c == '[' {
                match pitems(s, pos + w + 1) {
                    Option::None => Option::None,
                    Option::Some((a, n)) => Option::Some((JsonV::Arr(a), w + 1 + n)),
                }
            } else if c == '{' {
                match pmembers(s, pos + w + 1) {
                    Option::None => Option::None,
                    Option::Some((o, n)) => Option::Some((JsonV::Obj(o), w + 1 + n)),
                }
            } else {
                Option::None
            }
        }
    }
}

/// The items of an array from `pos` (just past `[`) to the closing `]`:
/// the item list and the characters consumed, closing bracket included.
pub open spec fn pitems(s: Seq<char>, pos: int) -> Option<(Seq<JsonV>, nat)>
    decreases s.len() - pos, 1int,
{
    if pos < 0 || pos > s.len() {
        Option::None
    } else {
        let w = ws_len(s, pos);
        if pos + w >= s.len() {
            Option::None
        } else if s[pos + w] == ']' {
            Option::Some((Seq::empty(), w + 1))
        } else {
            match pval(s, pos) {
                Option::None => Option::None,
                Option::Some((j, n)) => {
                    let w2 = ws_len(s, pos + n);
                    if pos + n + w2 >= s.len() {
                        Option::None
                    } else if s[pos + n + w2] == ']' {
                        Option::Some((seq![j], n + w2 + 1))
                    } else if s[pos + n + w2] == ',' {
                        match pitems(s, pos + n + w2 + 1) {
                            Option::None => Option::None,
                            Option::Some((a, m)) => Option::Some((seq![j] + a, n + w2 + 1 + m)),
                        }
                    } else {
                        Option::None
                    }
                },
            }
        }
    }
}

/// The members of an object from `pos` (just past `{`) to the closing `}`:
/// the member list and the characters consumed, closing brace included.
pub open spec fn pmembers(s: Seq<char>, pos: int) -> Option<(Seq<(Seq<char>, JsonV)>, nat)>
    decreases s.len() - pos, 1int,
{
    if pos < 0 || pos > s.len() {
        Option::None
    } else {
        let w = ws_len(s, pos);
        if pos + w >= s.len() {
            Option::None
        } else if s[pos + w] == '}' {
            Option::Some((Seq::empty(), w + 1))
        } else if s[pos + w] != '"' {
            Option::None
        } else {
            match pstring(s, pos + w + 1) {
                Option::None => Option::None,
                Option::Some((k, kn)) => {
                    let w2 = ws_len(s, pos + w + 1 + kn);
                    if pos + w + 1 + kn + w2 >= s.len() || s[pos + w + 1 + kn + w2] != ':' {
                        Option::None
                    } else {
                        match pval(s, pos + w + 1 + kn + w2 + 1) {
                            Option::None => Option::None,
                            Option::Some((j, vn)) => {
                                let e = pos + w + 1 + kn + w2 + 1 + vn;
                                let w3 = ws_len(s, e);
                                if e + w3 >= s.len() {
                                    Option::None
                                } else if s[e + w3] == '}' {
                                    Option::Some(
                                        (seq![(k, j)], w + 1 + kn + w2 + 1 + vn + w3 + 1),
                                    )
                                } else if s[e + w3] == ',' {
                                    match pmembers(s, e + w3 + 1) {
                                        Option::None => Option::None,
                                        Option::Some((o, m)) => Option::Some(
                                            (
                                                seq![(k, j)] + o,
                                                w + 1 + kn + w2 + 1 + vn + w3 + 1 + m,
                                            ),
                                        ),
                                    }
                                } else {
                                    Option::None
                                }
                            },
                        }
                    }
                },
            }
        }
    }
}

/// Relies on `char::from_u32`: yields the character with scalar value `v`.
#[verifier::external_body]
fn char_from_scalar(v: u32) -> (c: char)
    requires
        v < 0xD800 || (0xE000 <= v && v <= 0x10FFFF),
    ensures
        c as u32 == v,
{
    char::from_u32(v).unwrap()
}

/// The characters of a string slice, one vector entry each.
pub fn chars_of(s: &str) -> (r: Vec<char>)
    ensures
        r@ == s@,
{
    let n = s.unicode_len();
    let mut r: Vec<char> = Vec::new();
    let mut i: usize = 0;
    while i < n
        invariant
            n == s@.len(),
            0 <= i <= n,
            r@ == s@.take(i as int),
        decreases n - i,
    {
        let c = s.get_char(i);
        r.push(c);
        proof {
            assert(s@.take(i as int + 1) =~= s@.take(i as int).push(s@[i as int]));
        }
        i = i + 1;
    }
    proof {
        assert(s@.take(n as int) =~= s@);
    }
    r
}

/// Whitespace test matching [`is_ws`].
fn is_ws_char(c: char) -> (r: bool)
    ensures
        r == is_ws(c),
{
    c == ' ' || c == '\t' || c == '\n' || c == '\r'
}

/// Digit test matching [`is_digit`].
fn is_digit_char(c: char) -> (r: bool)
    ensures
        r == is_digit(c),
{
    let u = c as u32;
    48 <= u && u <= 57
}

/// Position of the first non-whitespace character at or after `pos`.
fn xskip_ws(s: &Vec<char>, pos: usize) -> (r: usize)
    requires
        pos <= s@.len(),
    ensures
        r as int == pos + ws_len(s@, pos as int),
        r <= s@.len(),
    decreases s@.len() - pos,
{
    let mut p = pos;
    while p < s.len() && is_ws_char(s[p])
        invariant
            pos <= p <= s@.len(),
            pos + ws_len(s@, pos as int) == p + ws_len(s@, p as int),
        decreases s@.len() - p,
    {
        p = p + 1;
    }
    p
}

/// A scan of `pdigits` never lowers the accumulator.
proof fn lemma_pdigits_ge(s: Seq<char>, pos: int, acc: nat)
    ensures
        pdigits(s, pos, acc).0 >= acc,
    decreases s.len() - pos,
{
    if 0 <= pos < s.len() && is_digit(s[pos]) {
        lemma_pdigits_ge(s, pos + 1, acc * 10 + digit_val(s[pos]) as nat);
    }
}

/// A number token at `pos`, as [`pnum`] reads it.
fn xnum(s: &Vec<char>, pos: usize) -> (r: Option<(i64, usize)>)
    requires
        pos <= s@.len(),
    ensures
        match pnum(s@, pos as int) {
            Option::None => r is None,
            Option::Some((v, n)) => r matches Option::Some(x) && x.0 as int == v && x.1 == pos
                + n,
        },
        r matches Option::Some(x) ==> x.1 <= s@.len(),
{
    let neg = pos < s.len() && s[pos] == '-';
    let start = if neg {
        pos + 1
    } else {
        pos
    };
    let mut p = start;
    let mut acc: u64 = 0;
    let mut over = false;
    while p < s.len() && is_digit_char(s[p])
        invariant
            start <= p <= s@.len(),
            acc <= 0x7fff_ffff_ffff_ffff,
            !over ==> pdigits(s@, start as int, 0).0 == pdigits(s@, p as int, acc as nat).0,
            !over ==> pdigits(s@, start as int, 0).1 == (p - start) + pdigits(
                s@,
                p as int,
                acc as nat,
            ).1,
            over ==> pdigits(s@, start as int, 0).0 > num_max(),
        decreases s@.len() - p,
    {
        let d: u64 = (s[p] as u32 as u64) - 48;
        if !over {
            if acc > 922337203685477580u64 || (acc == 922337203685477580u64 && d > 7) {
                proof {
                    lemma_pdigits_ge(s@, p as int + 1, (acc * 10 + d) as nat);
                }
                over = true;
            } else {
                acc = acc * 10 + d;
            }
        }
        p = p + 1;
    }
    if over || p == start {
        return Option::None;
    }
    if neg {
        let v: i64 = -(acc as i64);
        Option::Some((v, p))
    } else {
        Option::Some((acc as i64, p))
    }
}

/// The hex value of `c`, or -1, as [`hex_val`] gives it.
fn xhex(c: char) -> (r: i32)
    ensures
        r as int == hex_val(c),
{
    let u = c as u32;
    if 48 <= u && u <= 57 {
        (u - 48) as i32
    } else if 97 <= u && u <= 102 {
        (u - 87) as i32
    } else if 65 <= u && u <= 70 {
        (u - 55) as i32
    } else {
        -1
    }
}

/// A string body at `pos`, as [`pstring`] reads it.
fn xstring(s: &Vec<char>, pos: usize) -> (r: Option<(String, usize)>)
    requires
        pos <= s@.len(),
    ensures
        match pstring(s@, pos as int) {
            Option::None => r is None,
            Option::Some((t, n)) => r matches Option::Some(x) && x.0@ == t && x.1 == pos + n,
        },
        r matches Option::Some(x) ==> x.1 <= s@.len(),
    decreases s@.len() - pos,
{
    if pos >= s.len() {
        return Option::None;
    }
    let c = s[pos];
    if c == '"' {
        return Option::Some((String::new(), pos + 1));
    }
    if c == '\\' {
        if pos + 1 >= s.len() {
            return Option::None;
        }
        let e = s[pos + 1];
        if e == 'u' {
            if s.len() - pos < 6 {
                return Option::None;
            }
            let h2 = xhex(s[pos + 2]);
            let h3 = xhex(s[pos + 3]);
            let h4 = xhex(s[pos + 4]);
            let h5 = xhex(s[pos + 5]);
            if h2 < 0 || h3 < 0 || h4 < 0 || h5 < 0 {
                return Option::None;
            }
            let h: u32 = (h2 as u32) * 4096 + (h3 as u32) * 256 + (h4 as u32) * 16 + (h5 as u32);
            if 0xD800 <= h && h < 0xDC00 {
                if s.len() - pos < 12 || s[pos + 6] != '\\' || s[pos + 7] != 'u' {
                    return Option::None;
                }
                let g0 = xhex(s[pos + 8]);
                let g1 = xhex(s[pos + 9]);
                let g2 = xhex(s[pos + 10]);
                let g3 = xhex(s[pos + 11]);
                if g0 < 0 || g1 < 0 || g2 < 0 || g3 < 0 {
                    return Option::None;
                }
                let low: u32 = (g0 as u32) * 4096 + (g1 as u32) * 256 + (g2 as u32) * 16 + (
                g3 as u32);
                if !(0xDC00 <= low && low < 0xE000) {
                    return Option::None;
                }
                let cp: u32 = 0x10000 + (h - 0xD800) * 0x400 + (low - 0xDC00);
                let cc = char_from_scalar(cp);
                return match xstring(s, pos + 12) {
                    Option::None => Option::None,
                    Option::Some((t, en)) => {
                        let mut head = String::new();
                        push_char(&mut head, cc);
                        let out = head.concat(t.as_str());
                        proof {
                            assert(seq![cc] =~= Seq::<char>::empty() + seq![cc]);
                        }
                        Option::Some((out, en))
                    },
                };
            }
            if 0xDC00 <= h && h < 0xE000 {
                return Option::None;
            }
            let cc = char_from_scalar(h);
            match xstring(s, pos + 6) {
                Option::None => Option::None,
                Option::Some((t, en)) => {
                    let mut head = String::new();
                    push_char(&mut head, cc);
                    let out = head.concat(t.as_str());
                    proof {
                        assert(seq![cc] =~= Seq::<char>::empty() + seq![cc]);
                    }
                    Option::Some((out, en))
                },
            }
        } else {
            let dec: Option<char> = if e == '"' {
                Option::Some('"')
            } else if e == '\\' {
                Option::Some('\\')
            } else if e == '/' {
                Option::Some('/')
            } else if e == 'n' {
                Option::Some('\n')
            } else if e == 'r' {
                Option::Some('\r')
            } else if e == 't' {
                Option::Some('\t')
            } else if e == 'b' {
                Option::Some('\u{8}')
            } else if e == 'f' {
                Option::Some('\u{c}')
            } else {
                Option::None
            };
            match dec {
                Option::None => Option::None,
                Option::Some(cc) => match xstring(s, pos + 2) {
                    Option::None => Option::None,
                    Option::Some((t, en)) => {
                        let mut head = String::new();
                        push_char(&mut head, cc);
                        let out = head.concat(t.as_str());
                        proof {
                            assert(seq![cc] =~= Seq::<char>::empty() + seq![cc]);
                        }
                        Option::Some((out, en))
                    },
                },
            }
        }
    } else {
        match xstring(s, pos + 1) {
            Option::None => Option::None,
            Option::Some((t, en)) => {
                let mut head = String::new();
                push_char(&mut head, c);
                let out = head.concat(t.as_str());
                proof {
                    assert(seq![c] =~= Seq::<char>::empty() + seq![c]);
                }
                Option::Some((out, en))
            },
        }
    }
}

/// A value at `pos`, as [`pval`] reads it.
pub fn xval(s: &Vec<char>, pos: usize) -> (r: Option<(Json, usize)>)
    requires
        pos <= s@.len(),
    ensures
        match pval(s@, pos as int) {
            Option::None => r is None,
            Option::Some((jv, n)) => r matches Option::Some(x) && jview(x.0) == jv && x.1 == pos
                + n,
        },
        r matches Option::Some(x) ==> x.1 <= s@.len(),
    decreases s@.len() - pos, 0int,
{
    let w = xskip_ws(s, pos);
    if w >= s.len() {
        return Option::None;
    }
    let c = s[w];
    if c == 'n' {
        if s.len() - w >= 4 && s[w + 1] == 'u' && s[w + 2] == 'l' && s[w + 3] == 'l' {
            Option::Some((Json::Null, w + 4))
        } else {
            Option::None
        }
    } else if c == '"' {
        match xstring(s, w + 1) {
            Option::None => Option::None,
            Option::Some((t, e)) => Option::Some((Json::Text(t), e)),
        }
    } else if c == '-' || is_digit_char(c) {
        match xnum(s, w) {
            Option::None => Option::None,
            Option::Some((v, e)) => Option::Some((Json::Num(v), e)),
        }
    } else if c == '[' {
        match xitems(s, w + 1) {
            Option::None => Option::None,
            Option::Some((a, e)) => Option::Some((Json::Arr(a), e)),
        }
    } else if c == '{' {
        match xmembers(s, w + 1) {
            Option::None => Option::None,
            Option::Some((o, e)) => Option::Some((Json::Obj(o), e)),
        }
    } else {
        Option::None
    }
}

/// Array items at `pos`, as [`pitems`] reads them.
fn xitems(s: &Vec<char>, pos: usize) -> (r: Option<(Vec<Json>, usize)>)
    requires
        pos <= s@.len(),
    ensures
        match pitems(s@, pos as int) {
            Option::None => r is None,
            Option::Some((av, n)) => r matches Option::Some(x) && jview_items(x.0@, 0) == av
                && x.1 == pos + n,
        },
        r matches Option::Some(x) ==> x.1 <= s@.len(),
    decreases s@.len() - pos, 1int,
{
    let w = xskip_ws(s, pos);
    if w >= s.len() {
        return Option::None;
    }
    if s[w] == ']' {
        let out: Vec<Json> = Vec::new();
        return Option::Some((out, w + 1));
    }
    match xval(s, pos) {
        Option::None => Option::None,
        Option::Some((j, e)) => {
            let w2 = xskip_ws(s, e);
            if w2 >= s.len() {
                Option::None
            } else if s[w2] == ']' {
                let mut out: Vec<Json> = Vec::new();
                out.push(j);
                proof {
                    assert(jview_items(out@, 1) =~= Seq::<JsonV>::empty());
                    assert(jview_items(out@, 0) =~= seq![jview(out@[0])]);
                }
                Option::Some((out, w2 + 1))
            } else if s[w2] == ',' {
                match xitems(s, w2 + 1) {
                    Option::None => Option::None,
                    Option::Some((a, e2)) => {
                        let ghost a0 = a@;
                        let mut out = a;
                        out.insert(0, j);
                        proof {
                            let av = pitems(s@, pos as int)->Some_0.0;
                            assert(out@.drop_first() =~= a0);
                            assert(out@[0] == j);
                            lemma_jview_items_shift(out@);
                            assert(jview_items(out@, 0) =~= av);
                        }
                        Option::Some((out, e2))
                    },
                }
            } else {
                Option::None
            }
        },
    }
}

/// Dropping the head of a list shifts its item views by one.
proof fn lemma_jview_items_shift(a: Seq<Json>)
    requires
        a.len() >= 1,
    ensures
        jview_items(a, 0) == seq![jview(a[0])] + jview_items(a.drop_first(), 0),
    decreases a.len(),
{
    lemma_jview_items_index(a, 0);
    lemma_jview_items_index(a.drop_first(), 0);
    assert(jview_items(a, 0) =~= seq![jview(a[0])] + jview_items(a.drop_first(), 0));
}

/// Dropping the head member shifts the member views by one.
proof fn lemma_jview_members_shift(o: Seq<(String, Json)>)
    requires
        o.len() >= 1,
    ensures
        jview_members(o, 0) == seq![(o[0].0@, jview(o[0].1))] + jview_members(o.drop_first(), 0),
{
    lemma_jview_members_index(o, 0);
    lemma_jview_members_index(o.drop_first(), 0);
    assert(jview_members(o, 0) =~= seq![(o[0].0@, jview(o[0].1))] + jview_members(
        o.drop_first(),
        0,
    ));
}

/// Object members at `pos`, as [`pmembers`] reads them.
fn xmembers(s: &Vec<char>, pos: usize) -> (r: Option<(Vec<(String, Json)>, usize)>)
    requires
        pos <= s@.len(),
    ensures
        match pmembers(s@, pos as int) {
            Option::None => r is None,
            Option::Some((ov, n)) => r matches Option::Some(x) && jview_members(x.0@, 0) == ov
                && x.1 == pos + n,
        },
        r matches Option::Some(x) ==> x.1 <= s@.len(),
    decreases s@.len() - pos, 1int,
{
    let w = xskip_ws(s, pos);
    if w >= s.len() {
        return Option::None;
    }
    if s[w] == '}' {
        let out: Vec<(String, Json)> = Vec::new();
        return Option::Some((out, w + 1));
    }
    if s[w] != '"' {
        return Option::None;
    }
    match xstring(s, w + 1) {
        Option::None => Option::None,
        Option::Some((k, ke)) => {
            let w2 = xskip_ws(s, ke);
            if w2 >= s.len() {
                return Option::None;
            }
            if s[w2] != ':' {
                return Option::None;
            }
            match xval(s, w2 + 1) {
                Option::None => Option::None,
                Option::Some((j, ve)) => {
                    let w3 = xskip_ws(s, ve);
                    if w3 >= s.len() {
                        Option::None
                    } else if s[w3] == '}' {
                        let mut out: Vec<(String, Json)> = Vec::new();
                        out.push((k, j));
                        proof {
                            assert(jview_members(out@, 1) =~= Seq::<(Seq<char>, JsonV)>::empty());
                            assert(jview_members(out@, 0) =~= seq![
                                (out@[0].0@, jview(out@[0].1)),
                            ]);
                        }
                        Option::Some((out, w3 + 1))
                    } else if s[w3] == ',' {
                        match xmembers(s, w3 + 1) {
                            Option::None => Option::None,
                            Option::Some((o, e2)) => {
                                let ghost o0 = o@;
                                let mut out = o;
                                out.insert(0, (k, j));
                                proof {
                                    let ov = pmembers(s@, pos as int)->Some_0.0;
                                    assert(out@.drop_first() =~= o0);
                                    assert(out@[0] == (k, j));
                                    lemma_jview_members_shift(out@);
                                    assert(jview_members(out@, 0) =~= ov);
                                }
                                Option::Some((out, e2))
                            },
                        }
                    } else {
                        Option::None
                    }
                },
            }
        },
    }
}

/// The whole text as one JSON value, leading and trailing whitespace
/// allowed.
pub open spec fn pjson(s: Seq<char>) -> Option<JsonV> {
    match pval(s, 0) {
        Option::None => Option::None,
        Option::Some((j, n)) => {
            if n + ws_len(s, n as int) == s.len() {
                Option::Some(j)
            } else {
                Option::None
            }
        },
    }
}

/// The text parsed as one JSON value, as [`pjson`] reads it.
pub fn json_parse(s: &str) -> (r: Option<Json>)
    ensures
        match pjson(s@) {
            Option::None => r is None,
            Option::Some(jv) => r matches Option::Some(j) && jview(j) == jv,
        },
{
    let v = chars_of(s);
    match xval(&v, 0) {
        Option::None => Option::None,
        Option::Some((j, e)) => {
            let t = xskip_ws(&v, e);
            if t == v.len() {
                Option::Some(j)
            } else {
                Option::None
            }
        },
    }
}

} // verus!

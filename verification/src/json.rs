//! The JSON value model and its canonical text form.
//!
//! The harness speaks newline-delimited JSON-RPC, so the wire grammar is part
//! of the library's own logic.  A value is modelled by [`Json`]; numbers are
//! 64-bit integers, which is all the protocol's scenarios exchange.  The
//! canonical rendering of a value is given by the spec function [`json_text`];
//! the printer in this module produces exactly that text.

use vstd::prelude::*;

verus! {

/// A structured JSON value.  Numbers are modelled as 64-bit integers.
#[derive(Debug, PartialEq, Eq)]
pub enum Json {
    Null,
    Bool(bool),
    Int(i64),
    Str(String),
    Arr(Vec<Json>),
    Obj(Vec<(String, Json)>),
}

/// The mathematical shape of a JSON value: what a [`Json`] denotes.
#[verifier::ext_equal]
pub enum JsonV {
    Null,
    Bool(bool),
    Int(int),
    Str(Seq<char>),
    Arr(Seq<JsonV>),
    Obj(Seq<(Seq<char>, JsonV)>),
}

/// The denotation of an exec value, structurally.
pub open spec fn json_view(j: Json) -> JsonV
    decreases j,
{
    match j {
        Json::Null => JsonV::Null,
        Json::Bool(b) => JsonV::Bool(b),
        Json::Int(n) => JsonV::Int(n as int),
        Json::Str(s) => JsonV::Str(s@),
        Json::Arr(items) => JsonV::Arr(json_view_seq(items@)),
        Json::Obj(fields) => JsonV::Obj(json_view_fields(fields@)),
    }
}

/// The denotations of a sequence of values, element by element.
pub open spec fn json_view_seq(items: Seq<Json>) -> Seq<JsonV>
    decreases items,
{
    if items.len() == 0 {
        Seq::empty()
    } else {
        seq![json_view(items[0])] + json_view_seq(items.drop_first())
    }
}

/// The denotations of an object's fields, element by element.
pub open spec fn json_view_fields(fields: Seq<(String, Json)>) -> Seq<(Seq<char>, JsonV)>
    decreases fields,
{
    if fields.len() == 0 {
        Seq::empty()
    } else {
        seq![(fields[0].0@, json_view(fields[0].1))] + json_view_fields(fields.drop_first())
    }
}

impl View for Json {
    type V = JsonV;

    open spec fn view(&self) -> JsonV {
        json_view(*self)
    }
}

/// The digit character for a value below ten.
pub open spec fn dec_digit(d: int) -> char {
    if d == 0 { '0' }
    else if d == 1 { '1' }
    else if d == 2 { '2' }
    else if d == 3 { '3' }
    else if d == 4 { '4' }
    else if d == 5 { '5' }
    else if d == 6 { '6' }
    else if d == 7 { '7' }
    else if d == 8 { '8' }
    else { '9' }
}

/// Decimal text of a non-negative number, most significant digit first.
pub open spec fn nat_text(n: int) -> Seq<char>
    decreases n,
{
    if n < 10 {
        seq![dec_digit(n)]
    } else {
        nat_text(n / 10) + seq![dec_digit(n % 10)]
    }
}

/// Decimal text of an integer, with a leading minus sign when negative.
pub open spec fn int_text(n: int) -> Seq<char> {
    if n < 0 {
        seq!['-'] + nat_text(-n)
    } else {
        nat_text(n)
    }
}

/// How one character of a string body is rendered: the characters that JSON
/// cannot hold verbatim inside quotes are escaped.
pub open spec fn esc_char(c: char) -> Seq<char> {
    if c == '"' { seq!['\\', '"'] }
    else if c == '\\' { seq!['\\', '\\'] }
    else if c == '\n' { seq!['\\', 'n'] }
    else if c == '\r' { seq!['\\', 'r'] }
    else if c == '\t' { seq!['\\', 't'] }
    else { seq![c] }
}

/// The rendered body of a string (without the surrounding quotes).
pub open spec fn str_body_text(s: Seq<char>) -> Seq<char>
    decreases s.len(),
{
    if s.len() == 0 {
        Seq::empty()
    } else {
        esc_char(s[0]) + str_body_text(s.drop_first())
    }
}

/// The rendered form of a string value, quotes included.
pub open spec fn str_text(s: Seq<char>) -> Seq<char> {
    seq!['"'] + str_body_text(s) + seq!['"']
}

/// Canonical text of a value: no whitespace, fields in order.
pub open spec fn json_text(v: JsonV) -> Seq<char>
    decreases v,
{
    match v {
        JsonV::Null => seq!['n', 'u', 'l', 'l'],
        JsonV::Bool(b) => if b { seq!['t', 'r', 'u', 'e'] } else { seq!['f', 'a', 'l', 's', 'e'] },
        JsonV::Int(n) => int_text(n),
        JsonV::Str(s) => str_text(s),
        JsonV::Arr(items) => seq!['['] + arr_body_text(items) + seq![']'],
        JsonV::Obj(fields) => seq!['{'] + obj_body_text(fields) + seq!['}'],
    }
}

/// Canonical text of an array's elements, comma separated.
pub open spec fn arr_body_text(items: Seq<JsonV>) -> Seq<char>
    decreases items,
{
    if items.len() == 0 {
        Seq::empty()
    } else if items.len() == 1 {
        json_text(items[0])
    } else {
        json_text(items[0]) + seq![','] + arr_body_text(items.drop_first())
    }
}

/// Canonical text of an object's fields, comma separated.
pub open spec fn obj_body_text(fields: Seq<(Seq<char>, JsonV)>) -> Seq<char>
    decreases fields,
{
    if fields.len() == 0 {
        Seq::empty()
    } else if fields.len() == 1 {
        str_text(fields[0].0) + seq![':'] + json_text(fields[0].1)
    } else {
        str_text(fields[0].0) + seq![':'] + json_text(fields[0].1) + seq![',']
            + obj_body_text(fields.drop_first())
    }
}

// ---------------------------------------------------------------------------
// The grammar, as a deterministic scanner over a character sequence.
// ---------------------------------------------------------------------------

/// Whitespace the grammar allows between tokens.
pub open spec fn is_ws_char(c: char) -> bool {
    c == ' ' || c == '\t' || c == '\r' || c == '\n'
}

/// A decimal digit character.
pub open spec fn is_digit(c: char) -> bool {
    c == '0' || c == '1' || c == '2' || c == '3' || c == '4' || c == '5' || c == '6' || c == '7'
        || c == '8' || c == '9'
}

/// The numeric value of a digit character.
pub open spec fn digit_val(c: char) -> int {
    if c == '0' { 0 }
    else if c == '1' { 1 }
    else if c == '2' { 2 }
    else if c == '3' { 3 }
    else if c == '4' { 4 }
    else if c == '5' { 5 }
    else if c == '6' { 6 }
    else if c == '7' { 7 }
    else if c == '8' { 8 }
    else { 9 }
}

/// Clamp a continuation position into the range after `i` and within `s`.
/// Every scanner below in fact returns a position in that range, so the clamp
/// never alters a result; it lets the recursion's termination measure be
/// purely positional.
pub open spec fn adv(s: Seq<char>, i: int, k: int) -> int {
    if i < k && k <= s.len() {
        k
    } else if i < s.len() {
        i + 1
    } else {
        s.len() as int
    }
}

/// First position at or after `i` holding no whitespace.
pub open spec fn skip_ws(s: Seq<char>, i: int) -> int
    decreases s.len() - i,
{
    if 0 <= i && i < s.len() && is_ws_char(s[i]) {
        skip_ws(s, i + 1)
    } else {
        i
    }
}

/// The character denoted by an escape introducer, if the escape is known.
pub open spec fn esc_unmap(e: char) -> Option<char> {
    if e == '"' { Some('"') }
    else if e == '\\' { Some('\\') }
    else if e == '/' { Some('/') }
    else if e == 'n' { Some('\n') }
    else if e == 'r' { Some('\r') }
    else if e == 't' { Some('\t') }
    else { None }
}

/// Scan a string body starting just after the opening quote; yields the
/// denoted characters and the position after the closing quote.
pub open spec fn scan_str(s: Seq<char>, i: int) -> Option<(Seq<char>, int)>
    decreases s.len() - i,
{
    if !(0 <= i && i < s.len()) {
        None
    } else if s[i] == '"' {
        Some((Seq::empty(), i + 1))
    } else if s[i] == '\\' {
        if i + 1 < s.len() {
            match esc_unmap(s[i + 1]) {
                Some(c) => match scan_str(s, i + 2) {
                    Some((cs, k)) => Some((seq![c] + cs, k)),
                    None => None,
                },
                None => None,
            }
        } else {
            None
        }
    } else {
        match scan_str(s, i + 1) {
            Some((cs, k)) => Some((seq![s[i]] + cs, k)),
            None => None,
        }
    }
}

/// Scan a maximal run of digits, folding them onto `acc`.
pub open spec fn scan_digits(s: Seq<char>, i: int, acc: int) -> (int, int)
    decreases s.len() - i,
{
    if 0 <= i && i < s.len() && is_digit(s[i]) {
        scan_digits(s, i + 1, acc * 10 + digit_val(s[i]))
    } else {
        (acc, i)
    }
}

/// Scan an unsigned integer: one digit at least, no leading zero.
pub open spec fn scan_uint(s: Seq<char>, i: int) -> Option<(int, int)> {
    if !(0 <= i && i < s.len()) || !is_digit(s[i]) {
        None
    } else if s[i] == '0' {
        if i + 1 < s.len() && is_digit(s[i + 1]) {
            None
        } else {
            Some((0, i + 1))
        }
    } else {
        Some(scan_digits(s, i, 0))
    }
}

/// Scan an integer, signed, within the value range of the model.
pub open spec fn scan_int(s: Seq<char>, i: int) -> Option<(int, int)> {
    if 0 <= i && i < s.len() && s[i] == '-' {
        match scan_uint(s, i + 1) {
            Some((n, k)) => if n >= 1 && -n >= i64::MIN { Some((-n, k)) } else { None },
            None => None,
        }
    } else {
        match scan_uint(s, i) {
            Some((n, k)) => if n <= i64::MAX { Some((n, k)) } else { None },
            None => None,
        }
    }
}

/// Scan one value starting exactly at `i` (no leading whitespace).
pub open spec fn scan_value(s: Seq<char>, i: int) -> Option<(JsonV, int)>
    decreases s.len() - i, 2int,
{
    if !(0 <= i && i < s.len()) {
        None
    } else if s[i] == 'n' {
        if i + 4 <= s.len() && s[i + 1] == 'u' && s[i + 2] == 'l' && s[i + 3] == 'l' {
            Some((JsonV::Null, i + 4))
        } else {
            None
        }
    } else if s[i] == 't' {
        if i + 4 <= s.len() && s[i + 1] == 'r' && s[i + 2] == 'u' && s[i + 3] == 'e' {
            Some((JsonV::Bool(true), i + 4))
        } else {
            None
        }
    } else if s[i] == 'f' {
        if i + 5 <= s.len() && s[i + 1] == 'a' && s[i + 2] == 'l' && s[i + 3] == 's'
            && s[i + 4] == 'e' {
            Some((JsonV::Bool(false), i + 5))
        } else {
            None
        }
    } else if s[i] == '"' {
        match scan_str(s, i + 1) {
            Some((cs, k)) => Some((JsonV::Str(cs), k)),
            None => None,
        }
    } else if s[i] == '-' || is_digit(s[i]) {
        match scan_int(s, i) {
            Some((n, k)) => Some((JsonV::Int(n), k)),
            None => None,
        }
    } else if s[i] == '[' {
        let j = adv(s, i, skip_ws(s, i + 1));
        if j < s.len() && s[j] == ']' {
            Some((JsonV::Arr(Seq::empty()), j + 1))
        } else {
            match scan_arr(s, j) {
                Some((vs, k)) => Some((JsonV::Arr(vs), k)),
                None => None,
            }
        }
    } else if s[i] == '{' {
        let j = adv(s, i, skip_ws(s, i + 1));
        if j < s.len() && s[j] == '}' {
            Some((JsonV::Obj(Seq::empty()), j + 1))
        } else {
            match scan_obj(s, j) {
                Some((fs, k)) => Some((JsonV::Obj(fs), k)),
                None => None,
            }
        }
    } else {
        None
    }
}

/// Scan the elements of a non-empty array, the first starting at `i`,
/// through the closing bracket.
pub open spec fn scan_arr(s: Seq<char>, i: int) -> Option<(Seq<JsonV>, int)>
    decreases s.len() - i, 3int,
{
    if !(0 <= i) {
        None
    } else {
        match scan_value(s, i) {
            Some((v, k0)) => {
                let j = adv(s, i, skip_ws(s, adv(s, i, k0)));
                if j < s.len() && s[j] == ']' {
                    Some((seq![v], j + 1))
                } else if j < s.len() && s[j] == ',' {
                    let j2 = adv(s, j, skip_ws(s, j + 1));
                    match scan_arr(s, j2) {
                        Some((vs, k)) => Some((seq![v] + vs, k)),
                        None => None,
                    }
                } else {
                    None
                }
            },
            None => None,
        }
    }
}

/// Scan the fields of a non-empty object, the first key starting at `i`,
/// through the closing brace.
pub open spec fn scan_obj(s: Seq<char>, i: int) -> Option<(Seq<(Seq<char>, JsonV)>, int)>
    decreases s.len() - i, 3int,
{
    if 0 <= i && i < s.len() && s[i] == '"' {
        match scan_str(s, i + 1) {
            Some((key, k0)) => {
                let j = adv(s, i, skip_ws(s, adv(s, i, k0)));
                if j < s.len() && s[j] == ':' {
                    let j2 = adv(s, j, skip_ws(s, j + 1));
                    match scan_value(s, j2) {
                        Some((v, k1)) => {
                            let j3 = adv(s, j2, skip_ws(s, adv(s, j2, k1)));
                            if j3 < s.len() && s[j3] == '}' {
                                Some((seq![(key, v)], j3 + 1))
                            } else if j3 < s.len() && s[j3] == ',' {
                                let j4 = adv(s, j3, skip_ws(s, j3 + 1));
                                match scan_obj(s, j4) {
                                    Some((fs, k)) => Some((seq![(key, v)] + fs, k)),
                                    None => None,
                                }
                            } else {
                                None
                            }
                        },
                        None => None,
                    }
                } else {
                    None
                }
            },
            None => None,
        }
    } else {
        None
    }
}

/// What one whole line of text denotes: a single value, surrounded only by
/// whitespace, or nothing at all.
pub open spec fn line_parse(s: Seq<char>) -> Option<JsonV> {
    match scan_value(s, skip_ws(s, 0)) {
        Some((v, k)) => if skip_ws(s, k) == s.len() { Some(v) } else { None },
        None => None,
    }
}


// ---------------------------------------------------------------------------
// The printer: executable code producing exactly the canonical text.
// ---------------------------------------------------------------------------

/// Relies on `String`'s `FromIterator` over `char`: collecting characters
/// yields the string holding exactly those characters in order.
#[verifier::external_body]
fn string_from_chars(v: &Vec<char>) -> (s: String)
    ensures
        s@ == v@,
{
    v.iter().collect()
}

/// The characters of a string, in order.
pub fn str_to_chars(s: &str) -> (v: Vec<char>)
    ensures
        v@ == s@,
{
    let n = s.unicode_len();
    let mut v: Vec<char> = Vec::new();
    let mut i: usize = 0;
    while i < n
        invariant
            n == s@.len(),
            i <= n,
            v@ == s@.take(i as int),
        decreases n - i,
    {
        v.push(s.get_char(i));
        i = i + 1;
        proof {
            assert(v@ =~= s@.take(i as int));
        }
    }
    proof {
        assert(s@.take(n as int) =~= s@);
    }
    v
}

/// The digit character of a value below ten.
fn digit_char(d: u64) -> (c: char)
    requires
        d < 10,
    ensures
        c == dec_digit(d as int),
{
    if d == 0 { '0' }
    else if d == 1 { '1' }
    else if d == 2 { '2' }
    else if d == 3 { '3' }
    else if d == 4 { '4' }
    else if d == 5 { '5' }
    else if d == 6 { '6' }
    else if d == 7 { '7' }
    else if d == 8 { '8' }
    else { '9' }
}

/// Append the decimal text of a non-negative number.
fn write_nat(n: u64, out: &mut Vec<char>)
    ensures
        final(out)@ == old(out)@ + nat_text(n as int),
    decreases n,
{
    if n < 10 {
        out.push(digit_char(n));
        proof {
            assert(out@ =~= old(out)@ + nat_text(n as int));
        }
    } else {
        write_nat(n / 10, out);
        out.push(digit_char(n % 10));
        proof {
            assert(out@ =~= old(out)@ + nat_text(n as int));
        }
    }
}

/// Append the decimal text of an integer.
fn write_int(n: i64, out: &mut Vec<char>)
    ensures
        final(out)@ == old(out)@ + int_text(n as int),
{
    if n < 0 {
        out.push('-');
        let mag: u64 = if n == i64::MIN {
            9223372036854775808u64
        } else {
            (-n) as u64
        };
        write_nat(mag, out);
        proof {
            assert(out@ =~= old(out)@ + int_text(n as int));
        }
    } else {
        write_nat(n as u64, out);
    }
}

/// Append the rendering of one string-body character.
fn write_esc(c: char, out: &mut Vec<char>)
    ensures
        final(out)@ == old(out)@ + esc_char(c),
{
    if c == '"' {
        out.push('\\');
        out.push('"');
    } else if c == '\\' {
        out.push('\\');
        out.push('\\');
    } else if c == '\n' {
        out.push('\\');
        out.push('n');
    } else if c == '\r' {
        out.push('\\');
        out.push('r');
    } else if c == '\t' {
        out.push('\\');
        out.push('t');
    } else {
        out.push(c);
    }
    proof {
        assert(out@ =~= old(out)@ + esc_char(c));
    }
}

/// Append the rendered string body from character `idx` on.
fn write_str_body(s: &str, idx: usize, out: &mut Vec<char>)
    requires
        idx <= s@.len(),
    ensures
        final(out)@ == old(out)@ + str_body_text(s@.skip(idx as int)),
    decreases s@.len() - idx,
{
    let n = s.unicode_len();
    if idx < n {
        let c = s.get_char(idx);
        write_esc(c, out);
        write_str_body(s, idx + 1, out);
        proof {
            assert(s@.skip(idx as int).drop_first() =~= s@.skip(idx as int + 1));
            assert(s@.skip(idx as int)[0] == s@[idx as int]);
            assert(out@ =~= old(out)@ + str_body_text(s@.skip(idx as int)));
        }
    } else {
        proof {
            assert(s@.skip(idx as int) =~= Seq::<char>::empty());
        }
    }
}

/// Append the rendered form of a string value, quotes included.
fn write_str(s: &str, out: &mut Vec<char>)
    ensures
        final(out)@ == old(out)@ + str_text(s@),
{
    out.push('"');
    write_str_body(s, 0, out);
    out.push('"');
    proof {
        assert(s@.skip(0) =~= s@);
        assert(out@ =~= old(out)@ + str_text(s@));
    }
}

/// Append the canonical text of a value.
pub fn write_json(v: &Json, out: &mut Vec<char>)
    ensures
        final(out)@ == old(out)@ + json_text(v@),
    decreases *v, 0int,
{
    match v {
        Json::Null => {
            out.push('n');
            out.push('u');
            out.push('l');
            out.push('l');
            proof {
                assert(out@ =~= old(out)@ + json_text(v@));
            }
        },
        Json::Bool(b) => {
            if *b {
                out.push('t');
                out.push('r');
                out.push('u');
                out.push('e');
            } else {
                out.push('f');
                out.push('a');
                out.push('l');
                out.push('s');
                out.push('e');
            }
            proof {
                assert(out@ =~= old(out)@ + json_text(v@));
            }
        },
        Json::Int(n) => {
            write_int(*n, out);
        },
        Json::Str(s) => {
            write_str(s.as_str(), out);
        },
        Json::Arr(items) => {
            out.push('[');
            write_arr_body(items, 0, out);
            out.push(']');
            proof {
                assert(json_view_seq(items@).skip(0) =~= json_view_seq(items@));
                assert(out@ =~= old(out)@ + json_text(v@));
            }
        },
        Json::Obj(fields) => {
            out.push('{');
            write_obj_body(fields, 0, out);
            out.push('}');
            proof {
                assert(json_view_fields(fields@).skip(0) =~= json_view_fields(fields@));
                assert(out@ =~= old(out)@ + json_text(v@));
            }
        },
    }
}

/// Length and elements of a sequence of denotations.
pub proof fn lemma_json_view_seq(items: Seq<Json>)
    ensures
        json_view_seq(items).len() == items.len(),
        forall|i: int| 0 <= i < items.len() ==> json_view_seq(items)[i] == json_view(items[i]),
    decreases items.len(),
{
    if items.len() > 0 {
        lemma_json_view_seq(items.drop_first());
    }
}

/// Length and elements of a sequence of field denotations.
pub proof fn lemma_json_view_fields(fields: Seq<(String, Json)>)
    ensures
        json_view_fields(fields).len() == fields.len(),
        forall|i: int| 0 <= i < fields.len() ==> json_view_fields(fields)[i] == (
            fields[i].0@,
            json_view(fields[i].1),
        ),
    decreases fields.len(),
{
    if fields.len() > 0 {
        lemma_json_view_fields(fields.drop_first());
    }
}

/// Append the canonical text of the elements from `idx` on.
fn write_arr_body(items: &Vec<Json>, idx: usize, out: &mut Vec<char>)
    requires
        idx <= items@.len(),
    ensures
        final(out)@ == old(out)@ + arr_body_text(json_view_seq(items@).skip(idx as int)),
    decreases *items, items@.len() - idx,
{
    proof {
        lemma_json_view_seq(items@);
    }
    if idx < items.len() {
        write_json(&items[idx], out);
        if idx + 1 < items.len() {
            out.push(',');
            write_arr_body(items, idx + 1, out);
        }
        proof {
            let vs = json_view_seq(items@);
            assert(vs.skip(idx as int)[0] == vs[idx as int]);
            if idx + 1 < items.len() {
                assert(vs.skip(idx as int).drop_first() =~= vs.skip(idx as int + 1));
            }
            assert(out@ =~= old(out)@ + arr_body_text(vs.skip(idx as int)));
        }
    } else {
        proof {
            assert(json_view_seq(items@).skip(idx as int) =~= Seq::<JsonV>::empty());
        }
    }
}

/// Append the canonical text of the fields from `idx` on.
fn write_obj_body(fields: &Vec<(String, Json)>, idx: usize, out: &mut Vec<char>)
    requires
        idx <= fields@.len(),
    ensures
        final(out)@ == old(out)@ + obj_body_text(json_view_fields(fields@).skip(idx as int)),
    decreases *fields, fields@.len() - idx,
{
    proof {
        lemma_json_view_fields(fields@);
    }
    if idx < fields.len() {
        write_str(fields[idx].0.as_str(), out);
        out.push(':');
        write_json(&fields[idx].1, out);
        if idx + 1 < fields.len() {
            out.push(',');
            write_obj_body(fields, idx + 1, out);
        }
        proof {
            let fs = json_view_fields(fields@);
            assert(fs.skip(idx as int)[0] == fs[idx as int]);
            if idx + 1 < fields.len() {
                assert(fs.skip(idx as int).drop_first() =~= fs.skip(idx as int + 1));
            }
            assert(out@ =~= old(out)@ + obj_body_text(fs.skip(idx as int)));
        }
    } else {
        proof {
            assert(json_view_fields(fields@).skip(idx as int) =~= Seq::<(Seq<char>, JsonV)>::empty());
        }
    }
}

/// The canonical line of text for a value.
pub fn encode_json(v: &Json) -> (line: String)
    ensures
        line@ == json_text(v@),
{
    let mut out: Vec<char> = Vec::new();
    write_json(v, &mut out);
    string_from_chars(&out)
}


// ---------------------------------------------------------------------------
// The parser: executable code computing exactly what the scanner specifies.
// ---------------------------------------------------------------------------

/// Whitespace test, mirroring the grammar.
fn ws_check(c: char) -> (b: bool)
    ensures
        b == is_ws_char(c),
{
    c == ' ' || c == '\t' || c == '\r' || c == '\n'
}

/// Digit test, mirroring the grammar.
fn digit_check(c: char) -> (b: bool)
    ensures
        b == is_digit(c),
{
    c == '0' || c == '1' || c == '2' || c == '3' || c == '4' || c == '5' || c == '6' || c == '7'
        || c == '8' || c == '9'
}

/// The numeric value of a digit character.
fn digit_value(c: char) -> (d: u64)
    requires
        is_digit(c),
    ensures
        d == digit_val(c),
        d < 10,
{
    if c == '0' { 0 }
    else if c == '1' { 1 }
    else if c == '2' { 2 }
    else if c == '3' { 3 }
    else if c == '4' { 4 }
    else if c == '5' { 5 }
    else if c == '6' { 6 }
    else if c == '7' { 7 }
    else if c == '8' { 8 }
    else { 9 }
}

/// The character an escape introducer denotes, mirroring the grammar.
fn esc_unmap_check(e: char) -> (r: Option<char>)
    ensures
        r == esc_unmap(e),
{
    if e == '"' { Some('"') }
    else if e == '\\' { Some('\\') }
    else if e == '/' { Some('/') }
    else if e == 'n' { Some('\n') }
    else if e == 'r' { Some('\r') }
    else if e == 't' { Some('\t') }
    else { None }
}

/// First position at or after `i` holding no whitespace.
pub fn skip_ws_at(s: &Vec<char>, i: usize) -> (j: usize)
    requires
        i <= s@.len(),
    ensures
        j as int == skip_ws(s@, i as int),
        i <= j <= s@.len(),
{
    let mut j: usize = i;
    while j < s.len() && ws_check(s[j])
        invariant
            i <= j <= s@.len(),
            skip_ws(s@, i as int) == skip_ws(s@, j as int),
        decreases s@.len() - j,
    {
        j = j + 1;
    }
    j
}

/// Scan a string body, mirroring [`scan_str`].
fn parse_str(s: &Vec<char>, i: usize) -> (r: Option<(Vec<char>, usize)>)
    requires
        i <= s@.len(),
    ensures
        match r {
            Some(p) => scan_str(s@, i as int) == Some((p.0@, p.1 as int)) && i < p.1 <= s@.len(),
            None => scan_str(s@, i as int) is None,
        },
    decreases s@.len() - i,
{
    if i >= s.len() {
        None
    } else if s[i] == '"' {
        Some((Vec::new(), i + 1))
    } else if s[i] == '\\' {
        if s.len() - i >= 2 {
            match esc_unmap_check(s[i + 1]) {
                Some(c) => match parse_str(s, i + 2) {
                    Some((mut cs, k)) => {
                        cs.insert(0, c);
                        proof {
                            assert(cs@ =~= seq![c] + cs@.drop_first());
                        }
                        Some((cs, k))
                    },
                    None => None,
                },
                None => None,
            }
        } else {
            None
        }
    } else {
        match parse_str(s, i + 1) {
            Some((mut cs, k)) => {
                let c = s[i];
                cs.insert(0, c);
                proof {
                    assert(cs@ =~= seq![c] + cs@.drop_first());
                }
                Some((cs, k))
            },
            None => None,
        }
    }
}

/// A digit run's value never falls below what is already accumulated.
proof fn lemma_scan_digits_ge(s: Seq<char>, i: int, acc: int)
    requires
        acc >= 0,
    ensures
        scan_digits(s, i, acc).0 >= acc,
        scan_digits(s, i, acc).1 >= i,
    decreases s.len() - i,
{
    if 0 <= i && i < s.len() && is_digit(s[i]) {
        assert(acc * 10 + digit_val(s[i]) >= acc) by (nonlinear_arith)
            requires
                acc >= 0,
                digit_val(s[i]) >= 0,
        ;
        lemma_scan_digits_ge(s, i + 1, acc * 10 + digit_val(s[i]));
    }
}

/// Scan an unsigned integer, mirroring [`scan_uint`]; reports a run whose
/// value does not fit the machine word as too large for the model.
fn parse_uint(s: &Vec<char>, i: usize) -> (r: Option<(u64, usize)>)
    requires
        i <= s@.len(),
    ensures
        match r {
            Some(p) => scan_uint(s@, i as int) == Some((p.0 as int, p.1 as int)) && i < p.1
                <= s@.len(),
            None => match scan_uint(s@, i as int) {
                Some(p) => p.0 > u64::MAX as int,
                None => true,
            },
        },
{
    if i >= s.len() || !digit_check(s[i]) {
        None
    } else if s[i] == '0' {
        if s.len() - i >= 2 && digit_check(s[i + 1]) {
            None
        } else {
            Some((0, i + 1))
        }
    } else {
        let mut j: usize = i;
        let mut acc: u64 = 0;
        while j < s.len() && digit_check(s[j])
            invariant
                i <= j <= s@.len(),
                i < s@.len(),
                is_digit(s@[i as int]),
                s@[i as int] != '0',
                scan_digits(s@, i as int, 0) == scan_digits(s@, j as int, acc as int),
            decreases s@.len() - j,
        {
            let d = digit_value(s[j]);
            if acc >= 1844674407370955162u64 || (acc == 1844674407370955161u64 && d > 5) {
                proof {
                    let run = acc as int * 10 + digit_val(s@[j as int]);
                    lemma_scan_digits_ge(s@, j as int + 1, run);
                    assert(scan_digits(s@, j as int, acc as int) == scan_digits(
                        s@,
                        j as int + 1,
                        run,
                    ));
                    assert(scan_digits(s@, i as int, 0).0 > u64::MAX as int);
                    assert(scan_uint(s@, i as int) == Some(scan_digits(s@, i as int, 0)));
                }
                return None;
            }
            acc = acc * 10 + d;
            j = j + 1;
        }
        Some((acc, j))
    }
}

/// Scan an integer, mirroring [`scan_int`].
fn parse_int(s: &Vec<char>, i: usize) -> (r: Option<(i64, usize)>)
    requires
        i <= s@.len(),
    ensures
        match r {
            Some(p) => scan_int(s@, i as int) == Some((p.0 as int, p.1 as int)) && i < p.1
                <= s@.len(),
            None => scan_int(s@, i as int) is None,
        },
{
    if i < s.len() && s[i] == '-' {
        match parse_uint(s, i + 1) {
            Some((n, k)) => {
                if n >= 1 && n <= 9223372036854775808u64 {
                    let m: i64 = if n == 9223372036854775808u64 {
                        i64::MIN
                    } else {
                        -(n as i64)
                    };
                    Some((m, k))
                } else {
                    None
                }
            },
            None => None,
        }
    } else {
        match parse_uint(s, i) {
            Some((n, k)) => {
                if n <= i64::MAX as u64 {
                    Some((n as i64, k))
                } else {
                    None
                }
            },
            None => None,
        }
    }
}

/// Scan one value, mirroring [`scan_value`].
pub fn parse_value(s: &Vec<char>, i: usize) -> (r: Option<(Json, usize)>)
    requires
        i <= s@.len(),
    ensures
        match r {
            Some(p) => scan_value(s@, i as int) == Some((p.0@, p.1 as int)) && i < p.1 <= s@.len(),
            None => scan_value(s@, i as int) is None,
        },
    decreases s@.len() - i, 2int,
{
    if i >= s.len() {
        None
    } else {
        let c = s[i];
        if c == 'n' {
            if s.len() - i >= 4 && s[i + 1] == 'u' && s[i + 2] == 'l' && s[i + 3] == 'l' {
                Some((Json::Null, i + 4))
            } else {
                None
            }
        } else if c == 't' {
            if s.len() - i >= 4 && s[i + 1] == 'r' && s[i + 2] == 'u' && s[i + 3] == 'e' {
                Some((Json::Bool(true), i + 4))
            } else {
                None
            }
        } else if c == 'f' {
            if s.len() - i >= 5 && s[i + 1] == 'a' && s[i + 2] == 'l' && s[i + 3] == 's' && s[i
                + 4] == 'e' {
                Some((Json::Bool(false), i + 5))
            } else {
                None
            }
        } else if c == '"' {
            match parse_str(s, i + 1) {
                Some((cs, k)) => {
                    let st = string_from_chars(&cs);
                    Some((Json::Str(st), k))
                },
                None => None,
            }
        } else if c == '-' || digit_check(c) {
            match parse_int(s, i) {
                Some((n, k)) => Some((Json::Int(n), k)),
                None => None,
            }
        } else if c == '[' {
            let j = skip_ws_at(s, i + 1);
            if j < s.len() && s[j] == ']' {
                let vs: Vec<Json> = Vec::new();
                proof {
                    assert(json_view_seq(vs@) =~= Seq::<JsonV>::empty());
                }
                Some((Json::Arr(vs), j + 1))
            } else {
                match parse_arr(s, j) {
                    Some((vs, k)) => Some((Json::Arr(vs), k)),
                    None => None,
                }
            }
        } else if c == '{' {
            let j = skip_ws_at(s, i + 1);
            if j < s.len() && s[j] == '}' {
                let fs: Vec<(String, Json)> = Vec::new();
                proof {
                    assert(json_view_fields(fs@) =~= Seq::<(Seq<char>, JsonV)>::empty());
                }
                Some((Json::Obj(fs), j + 1))
            } else {
                match parse_obj(s, j) {
                    Some((fs, k)) => Some((Json::Obj(fs), k)),
                    None => None,
                }
            }
        } else {
            None
        }
    }
}

/// Scan a non-empty array's elements, mirroring [`scan_arr`].
fn parse_arr(s: &Vec<char>, i: usize) -> (r: Option<(Vec<Json>, usize)>)
    requires
        i <= s@.len(),
    ensures
        match r {
            Some(p) => scan_arr(s@, i as int) == Some((json_view_seq(p.0@), p.1 as int)) && i
                < p.1 <= s@.len(),
            None => scan_arr(s@, i as int) is None,
        },
    decreases s@.len() - i, 3int,
{
    match parse_value(s, i) {
        Some((v, k0)) => {
            let j = skip_ws_at(s, k0);
            if j < s.len() && s[j] == ']' {
                let mut vs: Vec<Json> = Vec::new();
                vs.push(v);
                proof {
                    lemma_json_view_seq(vs@);
                    assert(json_view_seq(vs@) =~= seq![json_view(v)]);
                }
                Some((vs, j + 1))
            } else if j < s.len() && s[j] == ',' {
                let j2 = skip_ws_at(s, j + 1);
                match parse_arr(s, j2) {
                    Some((mut vs, k)) => {
                        let ghost tail = vs@;
                        vs.insert(0, v);
                        proof {
                            assert(vs@.drop_first() =~= tail);
                            assert(json_view_seq(vs@) =~= seq![json_view(v)] + json_view_seq(
                                tail,
                            ));
                        }
                        Some((vs, k))
                    },
                    None => None,
                }
            } else {
                None
            }
        },
        None => None,
    }
}

/// Scan a non-empty object's fields, mirroring [`scan_obj`].
fn parse_obj(s: &Vec<char>, i: usize) -> (r: Option<(Vec<(String, Json)>, usize)>)
    requires
        i <= s@.len(),
    ensures
        match r {
            Some(p) => scan_obj(s@, i as int) == Some((json_view_fields(p.0@), p.1 as int)) && i
                < p.1 <= s@.len(),
            None => scan_obj(s@, i as int) is None,
        },
    decreases s@.len() - i, 3int,
{
    if i < s.len() && s[i] == '"' {
        match parse_str(s, i + 1) {
            Some((kcs, k0)) => {
                let key = string_from_chars(&kcs);
                let j = skip_ws_at(s, k0);
                if j < s.len() && s[j] == ':' {
                    let j2 = skip_ws_at(s, j + 1);
                    match parse_value(s, j2) {
                        Some((v, k1)) => {
                            let j3 = skip_ws_at(s, k1);
                            if j3 < s.len() && s[j3] == '}' {
                                let mut fs: Vec<(String, Json)> = Vec::new();
                                fs.push((key, v));
                                proof {
                                    lemma_json_view_fields(fs@);
                                    assert(json_view_fields(fs@) =~= seq![
                                        (fs@[0].0@, json_view(fs@[0].1)),
                                    ]);
                                }
                                Some((fs, j3 + 1))
                            } else if j3 < s.len() && s[j3] == ',' {
                                let j4 = skip_ws_at(s, j3 + 1);
                                match parse_obj(s, j4) {
                                    Some((mut fs, k)) => {
                                        let ghost tail = fs@;
                                        fs.insert(0, (key, v));
                                        proof {
                                            assert(fs@.drop_first() =~= tail);
                                            assert(json_view_fields(fs@) =~= seq![
                                                (fs@[0].0@, json_view(fs@[0].1)),
                                            ] + json_view_fields(tail));
                                        }
                                        Some((fs, k))
                                    },
                                    None => None,
                                }
                            } else {
                                None
                            }
                        },
                        None => None,
                    }
                } else {
                    None
                }
            },
            None => None,
        }
    } else {
        None
    }
}

/// Decode one line of text into the value it denotes, if any.
pub fn parse_json(line: &str) -> (r: Option<Json>)
    ensures
        match r {
            Some(v) => line_parse(line@) == Some(v@),
            None => line_parse(line@) is None,
        },
{
    let s = str_to_chars(line);
    let i = skip_ws_at(&s, 0);
    match parse_value(&s, i) {
        Some((v, k)) => {
            let e = skip_ws_at(&s, k);
            if e == s.len() {
                Some(v)
            } else {
                None
            }
        },
        None => None,
    }
}


// ---------------------------------------------------------------------------
// Reading structured values.
// ---------------------------------------------------------------------------

/// Look a key up among object fields; the last binding of a key wins.
pub open spec fn obj_lookup(fields: Seq<(Seq<char>, JsonV)>, key: Seq<char>) -> Option<JsonV>
    decreases fields.len(),
{
    if fields.len() == 0 {
        None
    } else if fields.last().0 == key {
        Some(fields.last().1)
    } else {
        obj_lookup(fields.drop_last(), key)
    }
}

/// The value bound to `key` when `v` is an object holding it.
pub open spec fn jv_get(v: JsonV, key: Seq<char>) -> Option<JsonV> {
    match v {
        JsonV::Obj(fs) => obj_lookup(fs, key),
        _ => None,
    }
}

/// Character-for-character equality of two strings.
pub fn str_eq(a: &str, b: &str) -> (r: bool)
    ensures
        r == (a@ == b@),
{
    let na = a.unicode_len();
    let nb = b.unicode_len();
    if na != nb {
        false
    } else {
        let mut i: usize = 0;
        while i < na
            invariant
                i <= na,
                na == a@.len(),
                na == b@.len(),
                forall|k: int| 0 <= k < i ==> a@[k] == b@[k],
            decreases na - i,
        {
            if a.get_char(i) != b.get_char(i) {
                return false;
            }
            i = i + 1;
        }
        proof {
            assert(a@ =~= b@);
        }
        true
    }
}

impl Json {
    /// The field bound to `key`, when this value is an object that holds it;
    /// the last binding of a key wins.
    pub fn get<'a>(&'a self, key: &str) -> (r: Option<&'a Json>)
        ensures
            match r {
                Some(x) => jv_get(self@, key@) == Some(x@),
                None => jv_get(self@, key@) is None,
            },
    {
        match self {
            Json::Obj(fields) => {
                let mut idx: usize = fields.len();
                proof {
                    lemma_json_view_fields(fields@);
                    assert(json_view_fields(fields@).take(idx as int) =~= json_view_fields(
                        fields@,
                    ));
                }
                while idx > 0
                    invariant
                        idx <= fields@.len(),
                        self@ == JsonV::Obj(json_view_fields(fields@)),
                        obj_lookup(json_view_fields(fields@), key@) == obj_lookup(
                            json_view_fields(fields@).take(idx as int),
                            key@,
                        ),
                    decreases idx,
                {
                    idx = idx - 1;
                    proof {
                        lemma_json_view_fields(fields@);
                        assert(json_view_fields(fields@).take(idx as int + 1).last()
                            == json_view_fields(fields@)[idx as int]);
                        assert(json_view_fields(fields@).take(idx as int + 1).drop_last()
                            =~= json_view_fields(fields@).take(idx as int));
                    }
                    if str_eq(fields[idx].0.as_str(), key) {
                        return Some(&fields[idx].1);
                    }
                }
                proof {
                    assert(json_view_fields(fields@).take(0) =~= Seq::<(Seq<char>, JsonV)>::empty());
                }
                None
            },
            _ => None,
        }
    }

    /// The number this value holds, when it is a number.
    pub fn int_value(&self) -> (r: Option<i64>)
        ensures
            match r {
                Some(n) => self@ == JsonV::Int(n as int),
                None => !(self@ is Int),
            },
    {
        match self {
            Json::Int(n) => Some(*n),
            _ => None,
        }
    }

    /// The text this value holds, when it is a string.
    pub fn str_value<'a>(&'a self) -> (r: Option<&'a String>)
        ensures
            match r {
                Some(s) => self@ == JsonV::Str(s@),
                None => !(self@ is Str),
            },
    {
        match self {
            Json::Str(s) => Some(s),
            _ => None,
        }
    }

    /// The truth value this value holds, when it is a boolean.
    pub fn bool_value(&self) -> (r: Option<bool>)
        ensures
            match r {
                Some(b) => self@ == JsonV::Bool(b),
                None => !(self@ is Bool),
            },
    {
        match self {
            Json::Bool(b) => Some(*b),
            _ => None,
        }
    }

    /// The first element, when this value is a non-empty array.
    pub fn first_elem<'a>(&'a self) -> (r: Option<&'a Json>)
        ensures
            match r {
                Some(x) => self@ is Arr && self@->Arr_0.len() > 0 && self@->Arr_0[0] == x@,
                None => !(self@ is Arr) || self@->Arr_0.len() == 0,
            },
    {
        match self {
            Json::Arr(items) => {
                proof {
                    lemma_json_view_seq(items@);
                }
                if items.len() > 0 {
                    Some(&items[0])
                } else {
                    None
                }
            },
            _ => None,
        }
    }

    /// A copy denoting the same value.
    pub fn deep_clone(&self) -> (r: Json)
        ensures
            r@ == self@,
        decreases *self, 0int,
    {
        match self {
            Json::Null => Json::Null,
            Json::Bool(b) => Json::Bool(*b),
            Json::Int(n) => Json::Int(*n),
            Json::Str(s) => Json::Str(s.clone()),
            Json::Arr(items) => {
                let r = clone_arr_from(items, 0);
                proof {
                    assert(json_view_seq(items@).skip(0) =~= json_view_seq(items@));
                }
                Json::Arr(r)
            },
            Json::Obj(fields) => {
                let r = clone_fields_from(fields, 0);
                proof {
                    assert(json_view_fields(fields@).skip(0) =~= json_view_fields(fields@));
                }
                Json::Obj(r)
            },
        }
    }
}

/// Copies of the elements from `idx` on.
fn clone_arr_from(items: &Vec<Json>, idx: usize) -> (r: Vec<Json>)
    requires
        idx <= items@.len(),
    ensures
        json_view_seq(r@) == json_view_seq(items@).skip(idx as int),
    decreases *items, items@.len() - idx,
{
    if idx < items.len() {
        let mut rest = clone_arr_from(items, idx + 1);
        let ghost tail = rest@;
        rest.insert(0, items[idx].deep_clone());
        proof {
            lemma_json_view_seq(items@);
            assert(rest@.drop_first() =~= tail);
            assert(json_view_seq(rest@) =~= seq![json_view(rest@[0])] + json_view_seq(tail));
            assert(json_view_seq(rest@) =~= json_view_seq(items@).skip(idx as int));
        }
        rest
    } else {
        let r = Vec::new();
        proof {
            lemma_json_view_seq(items@);
            assert(json_view_seq(r@) =~= Seq::<JsonV>::empty());
            assert(json_view_seq(items@).skip(idx as int) =~= Seq::<JsonV>::empty());
        }
        r
    }
}

/// Copies of the fields from `idx` on.
fn clone_fields_from(fields: &Vec<(String, Json)>, idx: usize) -> (r: Vec<(String, Json)>)
    requires
        idx <= fields@.len(),
    ensures
        json_view_fields(r@) == json_view_fields(fields@).skip(idx as int),
    decreases *fields, fields@.len() - idx,
{
    if idx < fields.len() {
        let mut rest = clone_fields_from(fields, idx + 1);
        let ghost tail = rest@;
        rest.insert(0, (fields[idx].0.clone(), fields[idx].1.deep_clone()));
        proof {
            lemma_json_view_fields(fields@);
            assert(rest@.drop_first() =~= tail);
            assert(json_view_fields(rest@) =~= seq![(rest@[0].0@, json_view(rest@[0].1))]
                + json_view_fields(tail));
            assert(json_view_fields(rest@) =~= json_view_fields(fields@).skip(idx as int));
        }
        rest
    } else {
        let r = Vec::new();
        proof {
            lemma_json_view_fields(fields@);
            assert(json_view_fields(r@) =~= Seq::<(Seq<char>, JsonV)>::empty());
            assert(json_view_fields(fields@).skip(idx as int) =~= Seq::<(Seq<char>, JsonV)>::empty());
        }
        r
    }
}


/// Append the decimal text of a non-negative wide number.
fn write_nat128(n: u128, out: &mut Vec<char>)
    ensures
        final(out)@ == old(out)@ + nat_text(n as int),
    decreases n,
{
    if n < 10 {
        out.push(digit_char(n as u64));
        proof {
            assert(out@ =~= old(out)@ + nat_text(n as int));
        }
    } else {
        write_nat128(n / 10, out);
        out.push(digit_char((n % 10) as u64));
        proof {
            assert(out@ =~= old(out)@ + nat_text(n as int));
        }
    }
}

/// The decimal text of a wide integer, as a string.
pub fn int_string(n: i128) -> (s: String)
    requires
        n != i128::MIN,
    ensures
        s@ == int_text(n as int),
{
    let mut out: Vec<char> = Vec::new();
    if n < 0 {
        out.push('-');
        write_nat128((-n) as u128, &mut out);
        proof {
            assert(out@ =~= int_text(n as int));
        }
    } else {
        write_nat128(n as u128, &mut out);
    }
    string_from_chars(&out)
}


// ---------------------------------------------------------------------------
// Building structured values.
// ---------------------------------------------------------------------------

/// A string value.
pub fn jstr(s: &str) -> (r: Json)
    ensures
        r@ == JsonV::Str(s@),
{
    Json::Str(s.to_owned())
}

/// An object with no fields.
pub fn obj0() -> (r: Json)
    ensures
        r@ == JsonV::Obj(Seq::<(Seq<char>, JsonV)>::empty()),
{
    let fields: Vec<(String, Json)> = Vec::new();
    let ghost gf = fields@;
    let r = Json::Obj(fields);
    proof {
        assert(json_view_fields(gf) =~= Seq::<(Seq<char>, JsonV)>::empty());
    }
    r
}

/// An object of one field.
pub fn obj1(k1: &str, v1: Json) -> (r: Json)
    ensures
        r@ == JsonV::Obj(seq![(k1@, v1@)]),
{
    let ghost gv1 = v1@;
    let mut fields: Vec<(String, Json)> = Vec::new();
    fields.push((k1.to_owned(), v1));
    let ghost gf = fields@;
    let r = Json::Obj(fields);
    proof {
        lemma_json_view_fields(gf);
        assert(json_view_fields(gf)[0] == (gf[0].0@, json_view(gf[0].1)));
        assert(json_view_fields(gf) =~= seq![(k1@, gv1)]);
    }
    r
}

/// An object of two fields.
pub fn obj2(k1: &str, v1: Json, k2: &str, v2: Json) -> (r: Json)
    ensures
        r@ == JsonV::Obj(seq![(k1@, v1@), (k2@, v2@)]),
{
    let ghost gv1 = v1@;
    let ghost gv2 = v2@;
    let mut fields: Vec<(String, Json)> = Vec::new();
    fields.push((k1.to_owned(), v1));
    fields.push((k2.to_owned(), v2));
    let ghost gf = fields@;
    let r = Json::Obj(fields);
    proof {
        lemma_json_view_fields(gf);
        assert(json_view_fields(gf)[0] == (gf[0].0@, json_view(gf[0].1)));
        assert(json_view_fields(gf)[1] == (gf[1].0@, json_view(gf[1].1)));
        assert(json_view_fields(gf) =~= seq![(k1@, gv1), (k2@, gv2)]);
    }
    r
}

/// An object of three fields.
pub fn obj3(k1: &str, v1: Json, k2: &str, v2: Json, k3: &str, v3: Json) -> (r: Json)
    ensures
        r@ == JsonV::Obj(seq![(k1@, v1@), (k2@, v2@), (k3@, v3@)]),
{
    let ghost gv1 = v1@;
    let ghost gv2 = v2@;
    let ghost gv3 = v3@;
    let mut fields: Vec<(String, Json)> = Vec::new();
    fields.push((k1.to_owned(), v1));
    fields.push((k2.to_owned(), v2));
    fields.push((k3.to_owned(), v3));
    let ghost gf = fields@;
    let r = Json::Obj(fields);
    proof {
        lemma_json_view_fields(gf);
        assert(json_view_fields(gf)[0] == (gf[0].0@, json_view(gf[0].1)));
        assert(json_view_fields(gf)[1] == (gf[1].0@, json_view(gf[1].1)));
        assert(json_view_fields(gf)[2] == (gf[2].0@, json_view(gf[2].1)));
        assert(json_view_fields(gf) =~= seq![(k1@, gv1), (k2@, gv2), (k3@, gv3)]);
    }
    r
}

/// An array with no elements.
pub fn arr0() -> (r: Json)
    ensures
        r@ == JsonV::Arr(Seq::<JsonV>::empty()),
{
    let items: Vec<Json> = Vec::new();
    let ghost gi = items@;
    let r = Json::Arr(items);
    proof {
        assert(json_view_seq(gi) =~= Seq::<JsonV>::empty());
    }
    r
}

/// An array of one element.
pub fn arr1(v1: Json) -> (r: Json)
    ensures
        r@ == JsonV::Arr(seq![v1@]),
{
    let ghost gv1 = v1@;
    let mut items: Vec<Json> = Vec::new();
    items.push(v1);
    let ghost gi = items@;
    let r = Json::Arr(items);
    proof {
        lemma_json_view_seq(gi);
        assert(json_view_seq(gi)[0] == json_view(gi[0]));
        assert(json_view_seq(gi) =~= seq![gv1]);
    }
    r
}

/// An array of two elements.
pub fn arr2(v1: Json, v2: Json) -> (r: Json)
    ensures
        r@ == JsonV::Arr(seq![v1@, v2@]),
{
    let ghost gv1 = v1@;
    let ghost gv2 = v2@;
    let mut items: Vec<Json> = Vec::new();
    items.push(v1);
    items.push(v2);
    let ghost gi = items@;
    let r = Json::Arr(items);
    proof {
        lemma_json_view_seq(gi);
        assert(json_view_seq(gi)[0] == json_view(gi[0]));
        assert(json_view_seq(gi)[1] == json_view(gi[1]));
        assert(json_view_seq(gi) =~= seq![gv1, gv2]);
    }
    r
}


// ---------------------------------------------------------------------------
// The canonical text always parses back: groundwork.
// ---------------------------------------------------------------------------

/// Powers of ten.
pub open spec fn pow10(k: nat) -> int
    decreases k,
{
    if k == 0 {
        1
    } else {
        10 * pow10((k - 1) as nat)
    }
}

/// The shape of a decimal rendering: at least one digit, every character a
/// digit, and a leading zero only for zero itself.
pub proof fn lemma_nat_text_shape(n: int)
    requires
        n >= 0,
    ensures
        nat_text(n).len() >= 1,
        forall|j: int| 0 <= j < nat_text(n).len() ==> is_digit(#[trigger] nat_text(n)[j]),
        nat_text(n)[0] == '0' <==> n == 0,
        n == 0 ==> nat_text(n).len() == 1,
    decreases n,
{
    if n >= 10 {
        lemma_nat_text_shape(n / 10);
    }
}

/// Scanning the rendering of `n` carries the accumulator past its digits.
pub proof fn lemma_scan_digits_prefix(s: Seq<char>, i: int, n: int, acc: int)
    requires
        0 <= i,
        n >= 0,
        i + nat_text(n).len() <= s.len(),
        s.subrange(i, i + nat_text(n).len()) == nat_text(n),
    ensures
        scan_digits(s, i, acc) == scan_digits(
            s,
            i + nat_text(n).len(),
            acc * pow10(nat_text(n).len() as nat) + n,
        ),
    decreases n,
{
    lemma_nat_text_shape(n);
    if n < 10 {
        assert(s[i] == nat_text(n)[0]);
        assert(digit_val(dec_digit(n)) == n);
        assert(acc * pow10(1) + n == acc * 10 + n) by {
            assert(pow10(0) == 1);
            assert(pow10(1) == 10 * pow10(0));
        }
    } else {
        let m = n / 10;
        let lm: int = nat_text(m).len() as int;
        assert(s.subrange(i, i + lm) =~= nat_text(m)) by {
            assert forall|j: int| 0 <= j < lm implies s.subrange(i, i + lm)[j] == nat_text(m)[j] by {
                assert(s.subrange(i, i + nat_text(n).len())[j] == nat_text(n)[j]);
            }
        }
        lemma_scan_digits_prefix(s, i, m, acc);
        let acc2 = acc * pow10(lm as nat) + m;
        assert(s[i + lm] == nat_text(n)[lm]);
        assert(nat_text(n)[lm] == dec_digit(n % 10));
        assert(scan_digits(s, i + lm, acc2) == scan_digits(s, i + lm + 1, acc2 * 10 + n % 10));
        assert(acc2 * 10 + n % 10 == acc * pow10((lm + 1) as nat) + n) by (nonlinear_arith)
            requires
                acc2 == acc * pow10(lm as nat) + m,
                m == n / 10,
                n >= 10,
                pow10((lm + 1) as nat) == 10 * pow10(lm as nat),
                n == 10 * (n / 10) + n % 10,
        ;
        assert(pow10((lm + 1) as nat) == 10 * pow10(lm as nat));
        assert(nat_text(n).len() == lm + 1);
    }
}

/// The rendering of a non-negative number, followed by no digit, scans back
/// to that number.
pub proof fn lemma_scan_uint_of_text(s: Seq<char>, i: int, n: int)
    requires
        0 <= i,
        n >= 0,
        i + nat_text(n).len() <= s.len(),
        s.subrange(i, i + nat_text(n).len()) == nat_text(n),
        i + nat_text(n).len() == s.len() || !is_digit(s[i + nat_text(n).len()]),
    ensures
        scan_uint(s, i) == Some((n, i + nat_text(n).len())),
{
    lemma_nat_text_shape(n);
    let l = nat_text(n).len();
    assert(s[i] == nat_text(n)[0]);
    if n == 0 {
        assert(s[i] == '0');
    } else {
        assert(s[i] != '0');
        lemma_scan_digits_prefix(s, i, n, 0);
        assert(0 * pow10(l as nat) + n == n) by (nonlinear_arith);
        assert(scan_digits(s, i + l, n) == (n, i + l));
    }
}

/// The rendering of an integer in the value range, followed by no digit,
/// scans back to that integer.
pub proof fn lemma_scan_int_of_text(s: Seq<char>, i: int, n: int)
    requires
        0 <= i,
        i64::MIN <= n <= i64::MAX,
        i + int_text(n).len() <= s.len(),
        s.subrange(i, i + int_text(n).len()) == int_text(n),
        i + int_text(n).len() == s.len() || !is_digit(s[i + int_text(n).len()]),
    ensures
        scan_int(s, i) == Some((n, i + int_text(n).len())),
{
    if n >= 0 {
        lemma_nat_text_shape(n);
        assert(s.subrange(i, i + nat_text(n).len()) =~= nat_text(n));
        lemma_scan_uint_of_text(s, i, n);
        assert(s[i] == nat_text(n)[0]);
        assert(is_digit(s[i]));
        assert(s[i] != '-');
    } else {
        let m = -n;
        lemma_nat_text_shape(m);
        assert(s.subrange(i, i + int_text(n).len())[0] == int_text(n)[0]);
        assert(int_text(n)[0] == '-');
        assert(s[i] == '-');
        assert(s.subrange(i + 1, i + 1 + nat_text(m).len()) =~= nat_text(m)) by {
            assert forall|j: int| 0 <= j < nat_text(m).len() implies s.subrange(
                i + 1,
                i + 1 + nat_text(m).len(),
            )[j] == nat_text(m)[j] by {
                assert(s.subrange(i, i + int_text(n).len())[j + 1] == int_text(n)[j + 1]);
            }
        }
        lemma_scan_uint_of_text(s, i + 1, m);
        assert(m >= 1);
    }
}

/// The rendering of a string body plus its closing quote scans back to the
/// same characters.
pub proof fn lemma_scan_str_of_text(s: Seq<char>, i: int, cs: Seq<char>)
    requires
        0 <= i,
        i + str_body_text(cs).len() + 1 <= s.len(),
        s.subrange(i, i + str_body_text(cs).len()) == str_body_text(cs),
        s[i + str_body_text(cs).len()] == '"',
    ensures
        scan_str(s, i) == Some((cs, i + str_body_text(cs).len() + 1)),
    decreases cs.len(),
{
    if cs.len() == 0 {
        assert(str_body_text(cs).len() == 0);
        assert(s[i] == '"');
    } else {
        let c = cs[0];
        let e = esc_char(c);
        let tail = cs.drop_first();
        let bt = str_body_text(tail);
        assert(str_body_text(cs) == e + bt);
        assert forall|j: int| 0 <= j < e.len() + bt.len() implies s[i + j] == (e + bt)[j] by {
            assert(s.subrange(i, i + str_body_text(cs).len())[j] == str_body_text(cs)[j]);
        }
        assert(s.subrange(i + e.len(), i + e.len() + bt.len()) =~= bt) by {
            assert forall|j: int| 0 <= j < bt.len() implies s.subrange(
                i + e.len(),
                i + e.len() + bt.len(),
            )[j] == bt[j] by {
                assert(s[i + e.len() + j] == (e + bt)[e.len() + j]);
            }
        }
        assert(s[i + e.len() + bt.len()] == '"');
        lemma_scan_str_of_text(s, i + e.len(), tail);
        assert(s[i + 0] == (e + bt)[0]);
        assert(s[i] == e[0]);
        if e.len() == 2 {
            assert(s[i + 1] == (e + bt)[1]);
            assert(s[i] == '\\');
            assert(s[i + 1] == e[1]);
            assert(esc_unmap(e[1]) == Some(c));
            assert(scan_str(s, i) == Some((seq![c] + tail, i + str_body_text(cs).len() + 1)));
            assert(seq![c] + tail =~= cs);
        } else {
            assert(e.len() == 1);
            assert(e[0] == c);
            assert(s[i] == c);
            assert(c != '"' && c != '\\');
            assert(scan_str(s, i) == Some((seq![c] + tail, i + str_body_text(cs).len() + 1)));
            assert(seq![c] + tail =~= cs);
        }
    }
}


/// Whether every number inside a value fits the model's 64-bit range.
pub open spec fn jv_in_range(v: JsonV) -> bool
    decreases v,
{
    match v {
        JsonV::Int(n) => i64::MIN <= n <= i64::MAX,
        JsonV::Arr(items) => forall|k: int| 0 <= k < items.len() ==> jv_in_range(
            #[trigger] items[k],
        ),
        JsonV::Obj(fields) => forall|k: int| 0 <= k < fields.len() ==> jv_in_range(
            (#[trigger] fields[k]).1,
        ),
        _ => true,
    }
}

/// The denotation of an exec value is always in range.
pub proof fn lemma_json_view_in_range(j: Json)
    ensures
        jv_in_range(json_view(j)),
    decreases j, 0int,
{
    match j {
        Json::Arr(items) => {
            lemma_view_in_range_seq(items@);
            lemma_json_view_seq(items@);
        },
        Json::Obj(fields) => {
            lemma_view_in_range_fields(fields@);
            lemma_json_view_fields(fields@);
        },
        _ => {},
    }
}

/// Every element's denotation is in range.
proof fn lemma_view_in_range_seq(items: Seq<Json>)
    ensures
        forall|k: int| 0 <= k < items.len() ==> jv_in_range(#[trigger] json_view_seq(items)[k]),
    decreases items, 1int,
{
    lemma_json_view_seq(items);
    if items.len() > 0 {
        lemma_json_view_in_range(items[0]);
        lemma_view_in_range_seq(items.drop_first());
        lemma_json_view_seq(items.drop_first());
        assert forall|k: int| 0 <= k < items.len() implies jv_in_range(
            #[trigger] json_view_seq(items)[k],
        ) by {
            if k > 0 {
                assert(json_view_seq(items)[k] == json_view_seq(items.drop_first())[k - 1]);
            }
        }
    }
}

/// Every field value's denotation is in range.
proof fn lemma_view_in_range_fields(fields: Seq<(String, Json)>)
    ensures
        forall|k: int| 0 <= k < fields.len() ==> jv_in_range(
            (#[trigger] json_view_fields(fields)[k]).1,
        ),
    decreases fields, 1int,
{
    lemma_json_view_fields(fields);
    if fields.len() > 0 {
        lemma_json_view_in_range(fields[0].1);
        lemma_view_in_range_fields(fields.drop_first());
        lemma_json_view_fields(fields.drop_first());
        assert forall|k: int| 0 <= k < fields.len() implies jv_in_range(
            (#[trigger] json_view_fields(fields)[k]).1,
        ) by {
            if k > 0 {
                assert(json_view_fields(fields)[k] == json_view_fields(fields.drop_first())[k
                    - 1]);
            }
        }
    }
}

/// A text standing at position `i` of `s`.
pub open spec fn text_at(s: Seq<char>, i: int, t: Seq<char>) -> bool {
    0 <= i && i + t.len() <= s.len() && s.subrange(i, i + t.len()) == t
}

/// A standing text splits at any concatenation.
pub proof fn lemma_text_at_split(s: Seq<char>, i: int, t1: Seq<char>, t2: Seq<char>)
    requires
        text_at(s, i, t1 + t2),
    ensures
        text_at(s, i, t1),
        text_at(s, i + t1.len(), t2),
{
    assert(s.subrange(i, i + t1.len()) =~= t1) by {
        assert forall|j: int| 0 <= j < t1.len() implies s.subrange(i, i + t1.len())[j]
            == t1[j] by {
            assert(s.subrange(i, i + (t1 + t2).len() as int)[j] == (t1 + t2)[j]);
        }
    }
    assert(s.subrange(i + t1.len(), i + t1.len() + t2.len()) =~= t2) by {
        assert forall|j: int| 0 <= j < t2.len() implies s.subrange(
            i + t1.len(),
            i + t1.len() + t2.len(),
        )[j] == t2[j] by {
            assert(s.subrange(i, i + (t1 + t2).len() as int)[t1.len() + j] == (t1 + t2)[t1.len()
                + j]);
        }
    }
}

/// A character of a standing text.
pub proof fn lemma_text_at_index(s: Seq<char>, i: int, t: Seq<char>, j: int)
    requires
        text_at(s, i, t),
        0 <= j < t.len(),
    ensures
        s[i + j] == t[j],
{
    assert(s.subrange(i, i + t.len()) =~= t);
    assert(s.subrange(i, i + t.len())[j] == t[j]);
}

/// The first character of a rendering, by the value's shape; it is never
/// whitespace.
pub proof fn lemma_json_text_first(v: JsonV)
    ensures
        json_text(v).len() >= 1,
        !is_ws_char(json_text(v)[0]),
        v is Null ==> json_text(v)[0] == 'n',
        v matches JsonV::Bool(b) ==> json_text(v)[0] == (if b { 't' } else { 'f' }),
        v is Int ==> json_text(v)[0] == '-' || is_digit(json_text(v)[0]),
        v is Str ==> json_text(v)[0] == '"',
        v is Arr ==> json_text(v)[0] == '[',
        v is Obj ==> json_text(v)[0] == '{',
{
    match v {
        JsonV::Int(n) => {
            if n >= 0 {
                lemma_nat_text_shape(n);
                assert(json_text(v)[0] == nat_text(n)[0]);
            } else {
                lemma_nat_text_shape(-n);
                assert(json_text(v)[0] == '-');
            }
        },
        _ => {},
    }
}


/// The canonical text of a value in range, followed by no digit, scans back
/// to exactly that value.
pub proof fn lemma_scan_canonical(s: Seq<char>, i: int, v: JsonV)
    requires
        jv_in_range(v),
        text_at(s, i, json_text(v)),
        i + json_text(v).len() == s.len() || !is_digit(s[i + json_text(v).len()]),
    ensures
        scan_value(s, i) == Some((v, i + json_text(v).len())),
    decreases v, 0int,
{
    let t = json_text(v);
    lemma_json_text_first(v);
    lemma_text_at_index(s, i, t, 0);
    assert(s[i + 0] == t[0]);
    assert(s[i] == t[0]);
    match v {
        JsonV::Null => {
            lemma_text_at_index(s, i, t, 1);
            lemma_text_at_index(s, i, t, 2);
            lemma_text_at_index(s, i, t, 3);
            assert(s[i + 1] == 'u' && s[i + 2] == 'l' && s[i + 3] == 'l');
            assert(t.len() == 4);
            assert(i + 4 <= s.len());
            assert(s[i] == 'n');
            assert(scan_value(s, i) == Some((JsonV::Null, i + 4)));
            assert(v == JsonV::Null);
            assert(i + json_text(v).len() == i + 4);
        },
        JsonV::Bool(b) => {
            if b {
                lemma_text_at_index(s, i, t, 1);
                lemma_text_at_index(s, i, t, 2);
                lemma_text_at_index(s, i, t, 3);
                assert(s[i + 1] == 'r' && s[i + 2] == 'u' && s[i + 3] == 'e');
            } else {
                lemma_text_at_index(s, i, t, 1);
                lemma_text_at_index(s, i, t, 2);
                lemma_text_at_index(s, i, t, 3);
                lemma_text_at_index(s, i, t, 4);
                assert(s[i + 1] == 'a' && s[i + 2] == 'l' && s[i + 3] == 's' && s[i + 4] == 'e');
            }
        },
        JsonV::Int(n) => {
            lemma_scan_int_of_text(s, i, n);
        },
        JsonV::Str(cs) => {
            let body = str_body_text(cs);
            assert(t =~= seq!['"'] + (body + seq!['"']));
            lemma_text_at_split(s, i, seq!['"'], body + seq!['"']);
            lemma_text_at_split(s, i + 1, body, seq!['"']);
            lemma_text_at_index(s, i + 1 + body.len(), seq!['"'], 0);
            assert(s[i + 1 + body.len()] == '"');
            lemma_scan_str_of_text(s, i + 1, cs);
            assert(i + t.len() == i + 1 + body.len() + 1);
        },
        JsonV::Arr(items) => {
            let ab = arr_body_text(items);
            assert(t =~= seq!['['] + (ab + seq![']']));
            lemma_text_at_split(s, i, seq!['['], ab + seq![']']);
            lemma_text_at_split(s, i + 1, ab, seq![']']);
            lemma_text_at_index(s, i + 1 + ab.len(), seq![']'], 0);
            assert(s[i + 1 + ab.len()] == ']');
            if items.len() == 0 {
                assert(ab.len() == 0);
                assert(s[i + 1] == ']');
                assert(skip_ws(s, i + 1) == i + 1);
                assert(adv(s, i, i + 1) == i + 1);
                assert(i + t.len() == i + 2);
                assert(items =~= Seq::<JsonV>::empty());
            } else {
                lemma_json_text_first(items[0]);
                assert(ab[0] == json_text(items[0])[0]) by {
                    if items.len() == 1 {
                    } else {
                        assert(ab == json_text(items[0]) + seq![','] + arr_body_text(
                            items.drop_first(),
                        ));
                    }
                }
                lemma_text_at_index(s, i + 1, ab, 0);
                assert(s[i + 1 + 0] == ab[0]);
                assert(s[i + 1] == ab[0]);
                assert(!is_ws_char(s[i + 1]));
                assert(skip_ws(s, i + 1) == i + 1);
                assert(adv(s, i, i + 1) == i + 1);
                assert(s[i + 1] != ']');
                lemma_scan_arr_canonical(s, i + 1, items);
                assert(i + t.len() == i + 1 + ab.len() + 1);
            }
        },
        JsonV::Obj(fields) => {
            let ob = obj_body_text(fields);
            assert(t =~= seq!['{'] + (ob + seq!['}']));
            lemma_text_at_split(s, i, seq!['{'], ob + seq!['}']);
            lemma_text_at_split(s, i + 1, ob, seq!['}']);
            lemma_text_at_index(s, i + 1 + ob.len(), seq!['}'], 0);
            assert(s[i + 1 + ob.len()] == '}');
            if fields.len() == 0 {
                assert(ob.len() == 0);
                assert(s[i + 1] == '}');
                assert(skip_ws(s, i + 1) == i + 1);
                assert(adv(s, i, i + 1) == i + 1);
                assert(i + t.len() == i + 2);
                assert(fields =~= Seq::<(Seq<char>, JsonV)>::empty());
            } else {
                assert(ob[0] == '"') by {
                    if fields.len() == 1 {
                        assert(ob == str_text(fields[0].0) + seq![':'] + json_text(fields[0].1));
                        assert(ob[0] == str_text(fields[0].0)[0]);
                    } else {
                        assert(ob == str_text(fields[0].0) + seq![':'] + json_text(fields[0].1)
                            + seq![','] + obj_body_text(fields.drop_first()));
                        assert(ob[0] == str_text(fields[0].0)[0]);
                    }
                }
                lemma_text_at_index(s, i + 1, ob, 0);
                assert(s[i + 1 + 0] == ob[0]);
                assert(s[i + 1] == '"');
                assert(skip_ws(s, i + 1) == i + 1);
                assert(adv(s, i, i + 1) == i + 1);
                assert(s[i + 1] != '}');
                lemma_scan_obj_canonical(s, i + 1, fields);
                assert(i + t.len() == i + 1 + ob.len() + 1);
            }
        },
    }
}

/// The canonical elements of a non-empty array, through the closing
/// bracket, scan back to exactly those elements.
proof fn lemma_scan_arr_canonical(s: Seq<char>, i: int, items: Seq<JsonV>)
    requires
        items.len() >= 1,
        forall|k: int| 0 <= k < items.len() ==> jv_in_range(#[trigger] items[k]),
        text_at(s, i, arr_body_text(items)),
        i + arr_body_text(items).len() < s.len(),
        s[i + arr_body_text(items).len()] == ']',
    ensures
        scan_arr(s, i) == Some((items, i + arr_body_text(items).len() + 1)),
    decreases items, 1int,
{
    let v0 = items[0];
    let t0 = json_text(v0);
    lemma_json_text_first(v0);
    if items.len() == 1 {
        assert(arr_body_text(items) == t0);
        lemma_scan_canonical(s, i, v0);
        let k0 = i + t0.len();
        assert(s[k0] == ']');
        assert(!is_ws_char(']'));
        assert(adv(s, i, k0) == k0);
        assert(skip_ws(s, k0) == k0);
        assert(seq![v0] =~= items);
    } else {
        let rest = items.drop_first();
        let ab = arr_body_text(items);
        assert(ab == t0 + seq![','] + arr_body_text(rest));
        assert(ab =~= t0 + (seq![','] + arr_body_text(rest)));
        lemma_text_at_split(s, i, t0, seq![','] + arr_body_text(rest));
        lemma_text_at_split(s, i + t0.len(), seq![','], arr_body_text(rest));
        lemma_text_at_index(s, i + t0.len(), seq![','], 0);
        let k0 = i + t0.len();
        assert(s[k0 + 0] == ',');
        assert(s[k0] == ',');
        lemma_scan_canonical(s, i, v0);
        assert(adv(s, i, k0) == k0);
        assert(skip_ws(s, k0) == k0);
        assert(s[k0] != ']');
        lemma_json_text_first(rest[0]);
        assert(arr_body_text(rest)[0] == json_text(rest[0])[0]) by {
            if rest.len() == 1 {
            } else {
                assert(arr_body_text(rest) == json_text(rest[0]) + seq![','] + arr_body_text(
                    rest.drop_first(),
                ));
            }
        }
        lemma_text_at_index(s, k0 + 1, arr_body_text(rest), 0);
        assert(s[k0 + 1 + 0] == arr_body_text(rest)[0]);
        assert(!is_ws_char(s[k0 + 1]));
        assert(skip_ws(s, k0 + 1) == k0 + 1);
        assert(adv(s, k0, k0 + 1) == k0 + 1);
        assert(i + ab.len() == k0 + 1 + arr_body_text(rest).len());
        lemma_scan_arr_canonical(s, k0 + 1, rest);
        assert(seq![v0] + rest =~= items);
    }
}

/// The canonical fields of a non-empty object, through the closing brace,
/// scan back to exactly those fields.
proof fn lemma_scan_obj_canonical(s: Seq<char>, i: int, fields: Seq<(Seq<char>, JsonV)>)
    requires
        fields.len() >= 1,
        forall|k: int| 0 <= k < fields.len() ==> jv_in_range((#[trigger] fields[k]).1),
        text_at(s, i, obj_body_text(fields)),
        i + obj_body_text(fields).len() < s.len(),
        s[i + obj_body_text(fields).len()] == '}',
    ensures
        scan_obj(s, i) == Some((fields, i + obj_body_text(fields).len() + 1)),
    decreases fields, 1int,
{
    let key = fields[0].0;
    let v0 = fields[0].1;
    let st = str_text(key);
    let t0 = json_text(v0);
    let ob = obj_body_text(fields);
    let head = st + seq![':'] + t0;
    lemma_json_text_first(v0);
    if fields.len() == 1 {
        assert(ob == head);
    } else {
        assert(ob == head + seq![','] + obj_body_text(fields.drop_first()));
    }
    assert(ob[0] == st[0]);
    lemma_text_at_index(s, i, ob, 0);
    assert(s[i + 0] == ob[0]);
    assert(s[i] == '"');
    // the key string and its closing quote stand at i
    assert(head =~= st + (seq![':'] + t0));
    if fields.len() == 1 {
        lemma_text_at_split(s, i, st, seq![':'] + t0);
    } else {
        assert(ob =~= head + (seq![','] + obj_body_text(fields.drop_first())));
        lemma_text_at_split(s, i, head, seq![','] + obj_body_text(fields.drop_first()));
        lemma_text_at_split(s, i, st, seq![':'] + t0);
    }
    let body = str_body_text(key);
    assert(st =~= seq!['"'] + (body + seq!['"']));
    lemma_text_at_split(s, i, seq!['"'], body + seq!['"']);
    lemma_text_at_split(s, i + 1, body, seq!['"']);
    lemma_text_at_index(s, i + 1 + body.len(), seq!['"'], 0);
    assert(s[i + 1 + body.len()] == '"');
    lemma_scan_str_of_text(s, i + 1, key);
    let k0 = i + st.len();
    assert(k0 == i + 1 + body.len() + 1);
    // the colon and the value
    lemma_text_at_split(s, i + st.len(), seq![':'], t0);
    lemma_text_at_index(s, k0, seq![':'], 0);
    assert(s[k0 + 0] == ':');
    assert(s[k0] == ':');
    assert(adv(s, i, k0) == k0);
    assert(skip_ws(s, k0) == k0);
    lemma_text_at_index(s, k0 + 1, t0, 0);
    assert(s[k0 + 1 + 0] == t0[0]);
    assert(!is_ws_char(s[k0 + 1]));
    assert(skip_ws(s, k0 + 1) == k0 + 1);
    assert(adv(s, k0, k0 + 1) == k0 + 1);
    let k1 = k0 + 1 + t0.len();
    if fields.len() == 1 {
        assert(i + ob.len() == k1);
        assert(s[k1] == '}');
        lemma_scan_canonical(s, k0 + 1, v0);
        assert(adv(s, k0 + 1, k1) == k1);
        assert(skip_ws(s, k1) == k1);
        assert(s[k1] != ',');
        assert(seq![(key, v0)] =~= fields);
    } else {
        let rest = fields.drop_first();
        let rb = obj_body_text(rest);
        lemma_text_at_split(s, i + head.len(), seq![','], rb);
        lemma_text_at_index(s, k1, seq![','], 0);
        assert(s[k1 + 0] == ',');
        assert(s[k1] == ',');
        lemma_scan_canonical(s, k0 + 1, v0);
        assert(adv(s, k0 + 1, k1) == k1);
        assert(skip_ws(s, k1) == k1);
        assert(s[k1] != '}');
        assert(rb[0] == '"') by {
            if rest.len() == 1 {
                assert(rb == str_text(rest[0].0) + seq![':'] + json_text(rest[0].1));
                assert(rb[0] == str_text(rest[0].0)[0]);
            } else {
                assert(rb == str_text(rest[0].0) + seq![':'] + json_text(rest[0].1) + seq![',']
                    + obj_body_text(rest.drop_first()));
                assert(rb[0] == str_text(rest[0].0)[0]);
            }
        }
        lemma_text_at_index(s, k1 + 1, rb, 0);
        assert(s[k1 + 1 + 0] == rb[0]);
        assert(!is_ws_char(s[k1 + 1]));
        assert(skip_ws(s, k1 + 1) == k1 + 1);
        assert(adv(s, k1, k1 + 1) == k1 + 1);
        assert(i + ob.len() == k1 + 1 + rb.len());
        lemma_scan_obj_canonical(s, k1 + 1, rest);
        assert(seq![(key, v0)] + rest =~= fields);
    }
}

/// The canonical line of a value in range parses back to exactly that
/// value: the codec round-trips.
pub proof fn lemma_canonical_line_parses(v: JsonV)
    requires
        jv_in_range(v),
    ensures
        line_parse(json_text(v)) == Some(v),
{
    let s = json_text(v);
    lemma_json_text_first(v);
    assert(skip_ws(s, 0) == 0);
    assert(text_at(s, 0, s)) by {
        assert(s.subrange(0, s.len() as int) =~= s);
    }
    lemma_scan_canonical(s, 0, v);
    assert(skip_ws(s, s.len() as int) == s.len());
}


/// Text fit for one line of the wire: no line break is embedded.
pub open spec fn line_clean(t: Seq<char>) -> bool {
    forall|j: int| 0 <= j < t.len() ==> (#[trigger] t[j]) != '\n' && t[j] != '\r'
}

/// Clean texts concatenate to a clean text.
pub proof fn lemma_line_clean_concat(a: Seq<char>, b: Seq<char>)
    requires
        line_clean(a),
        line_clean(b),
    ensures
        line_clean(a + b),
{
    assert forall|j: int| 0 <= j < (a + b).len() implies ((#[trigger] (a + b)[j]) != '\n' && (a
        + b)[j] != '\r') by {
        if j < a.len() {
            assert(a[j] != '\n' && a[j] != '\r');
        } else {
            assert(b[j - a.len()] != '\n' && b[j - a.len()] != '\r');
        }
    }
}

/// A rendered string-body character is clean: line breaks are escaped.
proof fn lemma_esc_char_clean(c: char)
    ensures
        line_clean(esc_char(c)),
{
    let e = esc_char(c);
    assert forall|j: int| 0 <= j < e.len() implies ((#[trigger] e[j]) != '\n' && e[j]
        != '\r') by {
        if e.len() == 2 {
            if j == 0 {
                assert(e[0] == '\\');
            } else {
                assert(j == 1);
            }
        } else {
            assert(j == 0);
        }
    }
}

/// A rendered string body is clean.
proof fn lemma_str_body_clean(cs: Seq<char>)
    ensures
        line_clean(str_body_text(cs)),
    decreases cs.len(),
{
    if cs.len() == 0 {
        assert(line_clean(str_body_text(cs)));
    } else {
        lemma_esc_char_clean(cs[0]);
        lemma_str_body_clean(cs.drop_first());
        lemma_line_clean_concat(esc_char(cs[0]), str_body_text(cs.drop_first()));
    }
}

/// A rendered string value is clean.
proof fn lemma_str_text_clean(cs: Seq<char>)
    ensures
        line_clean(str_text(cs)),
{
    lemma_str_body_clean(cs);
    assert(line_clean(seq!['"']));
    lemma_line_clean_concat(seq!['"'], str_body_text(cs));
    lemma_line_clean_concat(seq!['"'] + str_body_text(cs), seq!['"']);
}

/// A decimal rendering is clean: it holds digits and a sign at most.
proof fn lemma_int_text_clean(n: int)
    ensures
        line_clean(int_text(n)),
{
    if n >= 0 {
        lemma_nat_text_shape(n);
        assert(line_clean(nat_text(n)));
    } else {
        lemma_nat_text_shape(-n);
        assert(line_clean(seq!['-']));
        lemma_line_clean_concat(seq!['-'], nat_text(-n));
    }
}

/// The canonical text of any value fits one line: no line break occurs.
pub proof fn lemma_json_text_single_line(v: JsonV)
    ensures
        line_clean(json_text(v)),
    decreases v, 0int,
{
    match v {
        JsonV::Null => {
            assert(line_clean(json_text(v)));
        },
        JsonV::Bool(b) => {
            assert(line_clean(json_text(v)));
        },
        JsonV::Int(n) => {
            lemma_int_text_clean(n);
        },
        JsonV::Str(cs) => {
            lemma_str_text_clean(cs);
        },
        JsonV::Arr(items) => {
            lemma_arr_body_clean(items);
            lemma_line_clean_concat(seq!['['], arr_body_text(items));
            lemma_line_clean_concat(seq!['['] + arr_body_text(items), seq![']']);
        },
        JsonV::Obj(fields) => {
            lemma_obj_body_clean(fields);
            lemma_line_clean_concat(seq!['{'], obj_body_text(fields));
            lemma_line_clean_concat(seq!['{'] + obj_body_text(fields), seq!['}']);
        },
    }
}

/// The canonical elements of an array are clean.
proof fn lemma_arr_body_clean(items: Seq<JsonV>)
    ensures
        line_clean(arr_body_text(items)),
    decreases items, 1int,
{
    if items.len() == 0 {
    } else if items.len() == 1 {
        lemma_json_text_single_line(items[0]);
    } else {
        lemma_json_text_single_line(items[0]);
        lemma_arr_body_clean(items.drop_first());
        lemma_line_clean_concat(json_text(items[0]), seq![',']);
        lemma_line_clean_concat(
            json_text(items[0]) + seq![','],
            arr_body_text(items.drop_first()),
        );
    }
}

/// The canonical fields of an object are clean.
proof fn lemma_obj_body_clean(fields: Seq<(Seq<char>, JsonV)>)
    ensures
        line_clean(obj_body_text(fields)),
    decreases fields, 1int,
{
    if fields.len() == 0 {
    } else {
        lemma_str_text_clean(fields[0].0);
        lemma_json_text_single_line(fields[0].1);
        lemma_line_clean_concat(str_text(fields[0].0), seq![':']);
        lemma_line_clean_concat(str_text(fields[0].0) + seq![':'], json_text(fields[0].1));
        if fields.len() > 1 {
            lemma_obj_body_clean(fields.drop_first());
            lemma_line_clean_concat(
                str_text(fields[0].0) + seq![':'] + json_text(fields[0].1),
                seq![','],
            );
            lemma_line_clean_concat(
                str_text(fields[0].0) + seq![':'] + json_text(fields[0].1) + seq![','],
                obj_body_text(fields.drop_first()),
            );
        }
    }
}

} // verus!

//! The envelope wire codec.
//!
//! An envelope travels as a JSON document in a fixed, canonical form: the
//! fields in declaration order, no whitespace, strings escaped minimally
//! (quote, backslash, and control characters as `\u00XX`).  The serializer
//! produces exactly that form and the parser accepts exactly that form, so
//! parsing inverts serialization; both directions are stated below.

use vstd::prelude::*;
use vstd::string::*;
use crate::errors::LedgerError;
use crate::models::{EncryptedEnvelope, EnvelopeView};
use crate::strutil::{
    str_to_chars, chars_to_string, push_str_chars, matches_at, occurs_at, dec_digit, dec_nat,
    dec_int, dec_val, digit_val, is_digit, all_digits, pow10, lemma_dec_nat_facts,
    lemma_dec_val_bound, push_i64_dec,
};

verus! {

/// The lowercase hexadecimal digit for `d`.
pub open spec fn hex_digit_char(d: int) -> char {
    if d == 0 {
        '0'
    } else if d == 1 {
        '1'
    } else if d == 2 {
        '2'
    } else if d == 3 {
        '3'
    } else if d == 4 {
        '4'
    } else if d == 5 {
        '5'
    } else if d == 6 {
        '6'
    } else if d == 7 {
        '7'
    } else if d == 8 {
        '8'
    } else if d == 9 {
        '9'
    } else if d == 10 {
        'a'
    } else if d == 11 {
        'b'
    } else if d == 12 {
        'c'
    } else if d == 13 {
        'd'
    } else if d == 14 {
        'e'
    } else {
        'f'
    }
}

/// The canonical JSON escape of one character: quote and backslash take a
/// two-character escape, control characters a `\u00XX` escape, and every
/// other character stands for itself.
pub open spec fn escape_char(c: char) -> Seq<char> {
    if c == '"' {
        seq!['\\', '"']
    } else if c == '\\' {
        seq!['\\', '\\']
    } else if (c as u32) < 32 {
        seq![
            '\\',
            'u',
            '0',
            '0',
            hex_digit_char((c as u32 / 16) as int),
            hex_digit_char((c as u32 % 16) as int),
        ]
    } else {
        seq![c]
    }
}

/// The canonical JSON escape of a string, character by character.
pub open spec fn json_escaped(s: Seq<char>) -> Seq<char>
    decreases s.len(),
{
    if s.len() == 0 {
        Seq::empty()
    } else {
        escape_char(s[0]) + json_escaped(s.drop_first())
    }
}

/// Escaping distributes over concatenation.
pub proof fn lemma_json_escaped_concat(a: Seq<char>, b: Seq<char>)
    ensures
        json_escaped(a + b) == json_escaped(a) + json_escaped(b),
    decreases a.len(),
{
    if a.len() == 0 {
        assert(a + b =~= b);
        assert(json_escaped(a) + json_escaped(b) =~= json_escaped(b));
    } else {
        assert((a + b).len() > 0);
        assert((a + b)[0] == a[0]);
        assert((a + b).drop_first() =~= a.drop_first() + b);
        lemma_json_escaped_concat(a.drop_first(), b);
        assert(escape_char(a[0]) + (json_escaped(a.drop_first()) + json_escaped(b)) =~= (
        escape_char(a[0]) + json_escaped(a.drop_first())) + json_escaped(b));
    }
}

/// Escaping one more character appends that character's escape.
pub proof fn lemma_json_escaped_snoc(s: Seq<char>, c: char)
    ensures
        json_escaped(s.push(c)) == json_escaped(s) + escape_char(c),
{
    assert(s.push(c) =~= s + seq![c]);
    lemma_json_escaped_concat(s, seq![c]);
    assert(seq![c].drop_first() =~= Seq::<char>::empty());
    assert(json_escaped(Seq::<char>::empty()) =~= Seq::<char>::empty());
    assert(json_escaped(seq![c]) =~= escape_char(c) + Seq::<char>::empty());
    assert(escape_char(c) + Seq::<char>::empty() =~= escape_char(c));
}

fn hex_digit(d: u32) -> (r: char)
    requires
        d < 16,
    ensures
        r == hex_digit_char(d as int),
{
    if d == 0 {
        '0'
    } else if d == 1 {
        '1'
    } else if d == 2 {
        '2'
    } else if d == 3 {
        '3'
    } else if d == 4 {
        '4'
    } else if d == 5 {
        '5'
    } else if d == 6 {
        '6'
    } else if d == 7 {
        '7'
    } else if d == 8 {
        '8'
    } else if d == 9 {
        '9'
    } else if d == 10 {
        'a'
    } else if d == 11 {
        'b'
    } else if d == 12 {
        'c'
    } else if d == 13 {
        'd'
    } else if d == 14 {
        'e'
    } else {
        'f'
    }
}

/// Appends the canonical escape of `c` to `out`.
fn push_escaped_char(out: &mut Vec<char>, c: char)
    ensures
        final(out)@ == old(out)@ + escape_char(c),
{
    if c == '"' {
        out.push('\\');
        out.push('"');
        proof {
            assert(old(out)@ + escape_char(c) =~= old(out)@.push('\\').push('"'));
        }
    } else if c == '\\' {
        out.push('\\');
        out.push('\\');
        proof {
            assert(old(out)@ + escape_char(c) =~= old(out)@.push('\\').push('\\'));
        }
    } else {
        let u = c as u32;
        if u < 32 {
            out.push('\\');
            out.push('u');
            out.push('0');
            out.push('0');
            out.push(hex_digit(u / 16));
            out.push(hex_digit(u % 16));
            proof {
                assert(old(out)@ + escape_char(c) =~= old(out)@.push('\\').push('u').push(
                    '0',
                ).push('0').push(hex_digit_char((c as u32 / 16) as int)).push(
                    hex_digit_char((c as u32 % 16) as int),
                ));
            }
        } else {
            out.push(c);
            proof {
                assert(old(out)@ + escape_char(c) =~= old(out)@.push(c));
            }
        }
    }
}

/// Appends the canonical escape of the whole string `s` to `out`.
pub(crate) fn push_escaped(out: &mut Vec<char>, s: &str)
    ensures
        final(out)@ == old(out)@ + json_escaped(s@),
{
    let chars = str_to_chars(s);
    let n = chars.len();
    let mut i: usize = 0;
    while i < n
        invariant
            i <= n,
            n == s@.len(),
            chars@ == s@,
            out@ == old(out)@ + json_escaped(s@.take(i as int)),
        decreases n - i,
    {
        push_escaped_char(out, chars[i]);
        proof {
            lemma_json_escaped_snoc(s@.take(i as int), s@[i as int]);
            assert(s@.take(i as int).push(s@[i as int]) =~= s@.take(i + 1 as int));
            assert(old(out)@ + (json_escaped(s@.take(i as int)) + escape_char(s@[i as int])) =~= (
            old(out)@ + json_escaped(s@.take(i as int))) + escape_char(s@[i as int]));
        }
        i = i + 1;
    }
    proof {
        assert(s@.take(n as int) =~= s@);
    }
}

/// The canonical JSON document of an envelope: fields in declaration order,
/// no whitespace, strings minimally escaped.
pub open spec fn envelope_json(e: EnvelopeView) -> Seq<char> {
    "{\"id\":\""@ + json_escaped(e.id) + seq!['"'] + ",\"from_ledger_id\":\""@ + json_escaped(
        e.from_ledger_id,
    ) + seq!['"'] + ",\"to_ledger_id\":\""@ + json_escaped(e.to_ledger_id) + seq!['"']
        + ",\"ephemeral_pubkey\":\""@ + json_escaped(e.ephemeral_pubkey) + seq!['"']
        + ",\"encrypted_body\":\""@ + json_escaped(e.encrypted_body) + seq!['"'] + ",\"nonce\":\""@
        + json_escaped(e.nonce) + seq!['"'] + ",\"signature\":\""@ + json_escaped(e.signature)
        + seq!['"'] + ",\"timestamp\":"@ + dec_int(e.timestamp as int) + ",\"subject_hint\":\""@
        + json_escaped(e.subject_hint) + seq!['"'] + "}"@
}

/// Renders an envelope as its canonical JSON document.
pub fn envelope_to_json(env: &EncryptedEnvelope) -> (r: String)
    ensures
        r@ == envelope_json(env@),
{
    let mut out: Vec<char> = Vec::new();
    push_str_chars(&mut out, "{\"id\":\"");
    push_escaped(&mut out, env.id.as_str());
    out.push('"');
    push_str_chars(&mut out, ",\"from_ledger_id\":\"");
    push_escaped(&mut out, env.from_ledger_id.as_str());
    out.push('"');
    push_str_chars(&mut out, ",\"to_ledger_id\":\"");
    push_escaped(&mut out, env.to_ledger_id.as_str());
    out.push('"');
    push_str_chars(&mut out, ",\"ephemeral_pubkey\":\"");
    push_escaped(&mut out, env.ephemeral_pubkey.as_str());
    out.push('"');
    push_str_chars(&mut out, ",\"encrypted_body\":\"");
    push_escaped(&mut out, env.encrypted_body.as_str());
    out.push('"');
    push_str_chars(&mut out, ",\"nonce\":\"");
    push_escaped(&mut out, env.nonce.as_str());
    out.push('"');
    push_str_chars(&mut out, ",\"signature\":\"");
    push_escaped(&mut out, env.signature.as_str());
    out.push('"');
    push_str_chars(&mut out, ",\"timestamp\":");
    push_i64_dec(&mut out, env.timestamp);
    push_str_chars(&mut out, ",\"subject_hint\":\"");
    push_escaped(&mut out, env.subject_hint.as_str());
    out.push('"');
    push_str_chars(&mut out, "}");
    proof {
        assert(out@ =~= envelope_json(env@));
    }
    chars_to_string(&out)
}

/// A canonical escaped string field closed by a quote stands at `pos`: the
/// characters from `pos` are exactly `json_escaped(f)` followed by `"`.
pub open spec fn strfield_at(v: Seq<char>, pos: int, f: Seq<char>) -> bool {
    &&& 0 <= pos
    &&& pos + json_escaped(f).len() + 1 <= v.len()
    &&& v.subrange(pos, pos + json_escaped(f).len() + 1) == json_escaped(f) + seq!['"']
}

/// Under the parsing invariant, for a matching field strictly longer than
/// the prefix decoded so far, the escape of its next character stands at `i`.
proof fn lemma_strfield_next(v: Seq<char>, pos: int, f: Seq<char>, out: Seq<char>, i: int)
    requires
        strfield_at(v, pos, f),
        out.len() < f.len(),
        f.take(out.len() as int) == out,
        0 <= pos <= i <= v.len(),
        i - pos == json_escaped(out).len(),
    ensures
        ({
            let e = escape_char(f[out.len() as int]);
            &&& i + e.len() < v.len()
            &&& (forall|k: int| 0 <= k < e.len() ==> v[i + k] == e[k])
        }),
{
    let m = out.len() as int;
    let c = f[m];
    let e = escape_char(c);
    assert(f =~= f.take(m) + f.skip(m));
    lemma_json_escaped_concat(f.take(m), f.skip(m));
    assert(f.skip(m).len() > 0);
    assert(f.skip(m)[0] == c);
    assert(f.skip(m).drop_first() =~= f.skip(m + 1));
    assert(json_escaped(f.skip(m)) == e + json_escaped(f.skip(m + 1)));
    assert(json_escaped(f) =~= json_escaped(out) + (e + json_escaped(f.skip(m + 1))));
    let l = json_escaped(f).len() as int;
    assert(e.len() <= json_escaped(f.skip(m)).len());
    assert(i + e.len() <= pos + l);
    assert forall|k: int| 0 <= k < e.len() implies v[i + k] == e[k] by {
        assert(v[i + k] == v.subrange(pos, pos + l + 1)[i - pos + k]);
        assert((json_escaped(f) + seq!['"'])[i - pos + k] == (json_escaped(out) + (e
            + json_escaped(f.skip(m + 1))))[i - pos + k]);
        assert((json_escaped(out) + (e + json_escaped(f.skip(m + 1))))[i - pos + k] == e[k]);
    }
}

/// Under the parsing invariant, when a bare quote stands at `i`, any
/// matching field is exactly the prefix decoded so far.
proof fn lemma_strfield_done(v: Seq<char>, pos: int, f: Seq<char>, out: Seq<char>, i: int)
    requires
        strfield_at(v, pos, f),
        f.take(out.len() as int) == out,
        out.len() <= f.len(),
        0 <= pos <= i <= v.len(),
        i - pos == json_escaped(out).len(),
        i < v.len(),
        v[i] == '\u{22}',
    ensures
        f == out,
{
    if out.len() < f.len() {
        lemma_strfield_next(v, pos, f, out, i);
        let e = escape_char(f[out.len() as int]);
        assert(v[i] == e[0]);
        assert(e[0] != '\u{22}');
        assert(false);
    }
    assert(f =~= out);
}

/// Under the parsing invariant, a matching field of exactly the decoded
/// length puts a quote at `i`.
proof fn lemma_strfield_quote(v: Seq<char>, pos: int, f: Seq<char>, out: Seq<char>, i: int)
    requires
        strfield_at(v, pos, f),
        f.take(out.len() as int) == out,
        out.len() == f.len(),
        0 <= pos <= i <= v.len(),
        i - pos == json_escaped(out).len(),
    ensures
        i < v.len(),
        v[i] == '\u{22}',
{
    assert(f =~= out);
    let l = json_escaped(f).len() as int;
    assert(v[pos + l] == v.subrange(pos, pos + l + 1)[l]);
    assert((json_escaped(f) + seq!['"'])[l] == '\u{22}');
}

/// The value of a canonical lowercase hexadecimal digit character.
pub open spec fn hex_val_spec(c: char) -> Option<int> {
    if c == '0' {
        Some(0int)
    } else if c == '1' {
        Some(1int)
    } else if c == '2' {
        Some(2int)
    } else if c == '3' {
        Some(3int)
    } else if c == '4' {
        Some(4int)
    } else if c == '5' {
        Some(5int)
    } else if c == '6' {
        Some(6int)
    } else if c == '7' {
        Some(7int)
    } else if c == '8' {
        Some(8int)
    } else if c == '9' {
        Some(9int)
    } else if c == 'a' {
        Some(10int)
    } else if c == 'b' {
        Some(11int)
    } else if c == 'c' {
        Some(12int)
    } else if c == 'd' {
        Some(13int)
    } else if c == 'e' {
        Some(14int)
    } else if c == 'f' {
        Some(15int)
    } else {
        None
    }
}

/// Hexadecimal digits render and parse inversely.
proof fn lemma_hex_digit_roundtrip(d: int)
    requires
        0 <= d < 16,
    ensures
        hex_val_spec(hex_digit_char(d)) == Some(d),
{
}

/// A character with a hexadecimal value is that value's digit character.
proof fn lemma_hex_val_inverse(c: char, d: int)
    requires
        hex_val_spec(c) == Some(d),
    ensures
        0 <= d < 16,
        c == hex_digit_char(d),
{
}

fn hex_val(c: char) -> (r: Option<u32>)
    ensures
        r matches Some(d) ==> d < 16 && hex_val_spec(c) == Some(d as int),
        r is None ==> hex_val_spec(c) is None,
{
    if c == '0' {
        Some(0)
    } else if c == '1' {
        Some(1)
    } else if c == '2' {
        Some(2)
    } else if c == '3' {
        Some(3)
    } else if c == '4' {
        Some(4)
    } else if c == '5' {
        Some(5)
    } else if c == '6' {
        Some(6)
    } else if c == '7' {
        Some(7)
    } else if c == '8' {
        Some(8)
    } else if c == '9' {
        Some(9)
    } else if c == 'a' {
        Some(10)
    } else if c == 'b' {
        Some(11)
    } else if c == 'c' {
        Some(12)
    } else if c == 'd' {
        Some(13)
    } else if c == 'e' {
        Some(14)
    } else if c == 'f' {
        Some(15)
    } else {
        None
    }
}

/// The control character with code `d`.
fn control_char_of(d: u32) -> (r: char)
    requires
        d < 32,
    ensures
        r as u32 == d,
{
    if d == 0 {
        '\u{00}'
    } else if d == 1 {
        '\u{01}'
    } else if d == 2 {
        '\u{02}'
    } else if d == 3 {
        '\u{03}'
    } else if d == 4 {
        '\u{04}'
    } else if d == 5 {
        '\u{05}'
    } else if d == 6 {
        '\u{06}'
    } else if d == 7 {
        '\u{07}'
    } else if d == 8 {
        '\u{08}'
    } else if d == 9 {
        '\u{09}'
    } else if d == 10 {
        '\u{0a}'
    } else if d == 11 {
        '\u{0b}'
    } else if d == 12 {
        '\u{0c}'
    } else if d == 13 {
        '\u{0d}'
    } else if d == 14 {
        '\u{0e}'
    } else if d == 15 {
        '\u{0f}'
    } else if d == 16 {
        '\u{10}'
    } else if d == 17 {
        '\u{11}'
    } else if d == 18 {
        '\u{12}'
    } else if d == 19 {
        '\u{13}'
    } else if d == 20 {
        '\u{14}'
    } else if d == 21 {
        '\u{15}'
    } else if d == 22 {
        '\u{16}'
    } else if d == 23 {
        '\u{17}'
    } else if d == 24 {
        '\u{18}'
    } else if d == 25 {
        '\u{19}'
    } else if d == 26 {
        '\u{1a}'
    } else if d == 27 {
        '\u{1b}'
    } else if d == 28 {
        '\u{1c}'
    } else if d == 29 {
        '\u{1d}'
    } else if d == 30 {
        '\u{1e}'
    } else {
        '\u{1f}'
    }
}


/// The shape of a character's canonical escape: nonempty, never starting
/// with a quote; it starts with a backslash exactly for the escaped
/// characters, and its second character tells them apart.
proof fn lemma_escape_classes(g: char)
    ensures
        escape_char(g).len() >= 1,
        escape_char(g)[0] != '\u{22}',
        (escape_char(g)[0] == '\u{5c}') <==> (g == '\u{22}' || g == '\u{5c}' || (g as u32) < 32),
        escape_char(g)[0] != '\u{5c}' ==> escape_char(g) == seq![g],
        g == '\u{22}' ==> escape_char(g) == seq!['\u{5c}', '\u{22}'],
        g == '\u{5c}' ==> escape_char(g) == seq!['\u{5c}', '\u{5c}'],
        (g as u32) < 32 ==> escape_char(g) == seq![
            '\u{5c}',
            'u',
            '0',
            '0',
            hex_digit_char((g as u32 / 16) as int),
            hex_digit_char((g as u32 % 16) as int),
        ],
{
}

/// Parses a canonical escaped string field ending at a bare quote, which is
/// consumed.  Accepts exactly what `json_escaped` produces, so parsing is
/// both sound (the consumed region is the escape of the result) and complete
/// (a region that is the escape of some field parses to that field).
fn parse_string(v: &Vec<char>, pos: usize) -> (r: Option<(String, usize)>)
    requires
        pos <= v@.len(),
    ensures
        r matches Some((s, p)) ==> pos < p <= v@.len() && p == pos + json_escaped(s@).len() + 1
            && v@.subrange(pos as int, p as int) == json_escaped(s@) + seq!['"'],
        forall|f: Seq<char>|
            strfield_at(v@, pos as int, f) ==> (r matches Some((s, p)) && s@ == f && p == pos
                + json_escaped(f).len() + 1),
{
    let n = v.len();
    let mut out: Vec<char> = Vec::new();
    let mut i: usize = pos;
    loop
        invariant
            pos <= i <= n,
            n == v@.len(),
            v@.subrange(pos as int, i as int) == json_escaped(out@),
            i - pos == json_escaped(out@).len(),
            forall|f: Seq<char>|
                strfield_at(v@, pos as int, f) ==> out@.len() <= f.len() && f.take(
                    out@.len() as int,
                ) == out@,
        decreases n - i,
    {
        if i >= n {
            proof {
                assert forall|f: Seq<char>| !strfield_at(v@, pos as int, f) by {
                    if strfield_at(v@, pos as int, f) {
                        if out@.len() < f.len() {
                            lemma_strfield_next(v@, pos as int, f, out@, i as int);
                        } else {
                            lemma_strfield_quote(v@, pos as int, f, out@, i as int);
                        }
                    }
                }
            }
            return None;
        }
        let c = v[i];
        if c == '"' {
            proof {
                assert forall|f: Seq<char>|
                    strfield_at(v@, pos as int, f) implies f == out@ by {
                    lemma_strfield_done(v@, pos as int, f, out@, i as int);
                }
                assert(v@.subrange(pos as int, i + 1 as int) =~= v@.subrange(pos as int, i as int)
                    + seq![v@[i as int]]);
            }
            let s = chars_to_string(&out);
            return Some((s, i + 1));
        }
        // Any matching field is now strictly longer than the decoded prefix.
        proof {
            assert forall|f: Seq<char>|
                strfield_at(v@, pos as int, f) implies out@.len() < f.len() by {
                if out@.len() == f.len() {
                    lemma_strfield_quote(v@, pos as int, f, out@, i as int);
                }
            }
        }
        if c == '\\' {
            if i + 1 >= n {
                proof {
                    assert forall|f: Seq<char>| !strfield_at(v@, pos as int, f) by {
                        if strfield_at(v@, pos as int, f) {
                            lemma_strfield_next(v@, pos as int, f, out@, i as int);
                            let g = f[out@.len() as int];
                            lemma_escape_classes(g);
                            assert(escape_char(g)[0] == v@[i as int]);
                            assert(escape_char(g).len() >= 2);
                        }
                    }
                }
                return None;
            }
            let e = v[i + 1];
            if e == '"' {
                proof {
                    lemma_json_escaped_snoc(out@, '\u{22}');
                    assert forall|f: Seq<char>|
                        strfield_at(v@, pos as int, f) implies out@.push('\u{22}').len() <= f.len()
                        && f.take(out@.push('\u{22}').len() as int) == out@.push('\u{22}') by {
                        lemma_strfield_next(v@, pos as int, f, out@, i as int);
                        let g = f[out@.len() as int];
                        lemma_escape_classes(g);
                        assert(escape_char(g)[0] == v@[i as int]);
                        assert(escape_char(g)[1] == v@[i + 1]);
                        assert(g == '\u{22}');
                        assert(f.take(out@.len() as int + 1) =~= f.take(out@.len() as int).push(g));
                    }
                    assert(v@.subrange(pos as int, i + 2 as int) =~= json_escaped(out@) + seq![
                        '\u{5c}',
                        '\u{22}',
                    ]);
                    assert(json_escaped(out@) + seq!['\u{5c}', '\u{22}'] =~= json_escaped(out@)
                        + escape_char('\u{22}'));
                }
                out.push('"');
                i = i + 2;
            } else if e == '\\' {
                proof {
                    lemma_json_escaped_snoc(out@, '\u{5c}');
                    assert forall|f: Seq<char>|
                        strfield_at(v@, pos as int, f) implies out@.push('\u{5c}').len() <= f.len()
                        && f.take(out@.push('\u{5c}').len() as int) == out@.push('\u{5c}') by {
                        lemma_strfield_next(v@, pos as int, f, out@, i as int);
                        let g = f[out@.len() as int];
                        lemma_escape_classes(g);
                        assert(escape_char(g)[0] == v@[i as int]);
                        assert(escape_char(g)[1] == v@[i + 1]);
                        assert(g == '\u{5c}');
                        assert(f.take(out@.len() as int + 1) =~= f.take(out@.len() as int).push(g));
                    }
                    assert(v@.subrange(pos as int, i + 2 as int) =~= json_escaped(out@) + seq![
                        '\u{5c}',
                        '\u{5c}',
                    ]);
                    assert(json_escaped(out@) + seq!['\u{5c}', '\u{5c}'] =~= json_escaped(out@)
                        + escape_char('\u{5c}'));
                }
                out.push('\\');
                i = i + 2;
            } else if e == 'u' {
                if n - i < 6 {
                    proof {
                        assert forall|f: Seq<char>| !strfield_at(v@, pos as int, f) by {
                            if strfield_at(v@, pos as int, f) {
                                lemma_strfield_next(v@, pos as int, f, out@, i as int);
                                let g = f[out@.len() as int];
                                lemma_escape_classes(g);
                                assert(escape_char(g)[0] == v@[i as int]);
                                assert(escape_char(g)[1] == v@[i + 1]);
                                assert((g as u32) < 32);
                                assert(escape_char(g).len() == 6);
                            }
                        }
                    }
                    return None;
                }
                if v[i + 2] != '0' || v[i + 3] != '0' {
                    proof {
                        assert forall|f: Seq<char>| !strfield_at(v@, pos as int, f) by {
                            if strfield_at(v@, pos as int, f) {
                                lemma_strfield_next(v@, pos as int, f, out@, i as int);
                                let g = f[out@.len() as int];
                                lemma_escape_classes(g);
                                assert(escape_char(g)[0] == v@[i as int]);
                                assert(escape_char(g)[1] == v@[i + 1]);
                                assert((g as u32) < 32);
                                assert(escape_char(g)[2] == v@[i + 2]);
                                assert(escape_char(g)[3] == v@[i + 3]);
                            }
                        }
                    }
                    return None;
                }
                let d1 = match hex_val(v[i + 4]) {
                    Some(d) => d,
                    None => {
                        proof {
                            assert forall|f: Seq<char>| !strfield_at(v@, pos as int, f) by {
                                if strfield_at(v@, pos as int, f) {
                                    lemma_strfield_next(v@, pos as int, f, out@, i as int);
                                    let g = f[out@.len() as int];
                                    lemma_escape_classes(g);
                                    assert(escape_char(g)[0] == v@[i as int]);
                                    assert(escape_char(g)[1] == v@[i + 1]);
                                    assert((g as u32) < 32);
                                    assert(escape_char(g)[4] == v@[i + 4]);
                                    lemma_hex_digit_roundtrip((g as u32 / 16) as int);
                                }
                            }
                        }
                        return None;
                    },
                };
                let d2 = match hex_val(v[i + 5]) {
                    Some(d) => d,
                    None => {
                        proof {
                            assert forall|f: Seq<char>| !strfield_at(v@, pos as int, f) by {
                                if strfield_at(v@, pos as int, f) {
                                    lemma_strfield_next(v@, pos as int, f, out@, i as int);
                                    let g = f[out@.len() as int];
                                    lemma_escape_classes(g);
                                    assert(escape_char(g)[0] == v@[i as int]);
                                    assert(escape_char(g)[1] == v@[i + 1]);
                                    assert((g as u32) < 32);
                                    assert(escape_char(g)[5] == v@[i + 5]);
                                    lemma_hex_digit_roundtrip((g as u32 % 16) as int);
                                }
                            }
                        }
                        return None;
                    },
                };
                if d1 > 1 {
                    proof {
                        assert forall|f: Seq<char>| !strfield_at(v@, pos as int, f) by {
                            if strfield_at(v@, pos as int, f) {
                                lemma_strfield_next(v@, pos as int, f, out@, i as int);
                                let g = f[out@.len() as int];
                                lemma_escape_classes(g);
                                assert(escape_char(g)[0] == v@[i as int]);
                                assert(escape_char(g)[1] == v@[i + 1]);
                                assert((g as u32) < 32);
                                assert(escape_char(g)[4] == v@[i + 4]);
                                lemma_hex_digit_roundtrip((g as u32 / 16) as int);
                                assert(g as u32 / 16 <= 1);
                            }
                        }
                    }
                    return None;
                }
                let code = d1 * 16 + d2;
                let pushed = control_char_of(code);
                proof {
                    lemma_json_escaped_snoc(out@, pushed);
                    assert(pushed as u32 == code);
                    assert(code / 16 == d1 && code % 16 == d2);
                    lemma_escape_classes(pushed);
                    lemma_hex_val_inverse(v@[i + 4], d1 as int);
                    lemma_hex_val_inverse(v@[i + 5], d2 as int);
                    assert(escape_char(pushed) =~= seq![
                        '\u{5c}',
                        'u',
                        '0',
                        '0',
                        v@[i + 4],
                        v@[i + 5],
                    ]);
                    assert forall|f: Seq<char>|
                        strfield_at(v@, pos as int, f) implies out@.push(pushed).len() <= f.len()
                        && f.take(out@.push(pushed).len() as int) == out@.push(pushed) by {
                        lemma_strfield_next(v@, pos as int, f, out@, i as int);
                        let g = f[out@.len() as int];
                        lemma_escape_classes(g);
                        assert(escape_char(g)[0] == v@[i as int]);
                        assert(escape_char(g)[1] == v@[i + 1]);
                        assert((g as u32) < 32);
                        assert(escape_char(g)[4] == v@[i + 4]);
                        assert(escape_char(g)[5] == v@[i + 5]);
                        lemma_hex_digit_roundtrip((g as u32 / 16) as int);
                        lemma_hex_digit_roundtrip((g as u32 % 16) as int);
                        assert(g as u32 / 16 == d1 && g as u32 % 16 == d2);
                        assert(g as u32 == pushed as u32);
                        vstd::utf8::char_u32_cast(g, g as u32);
                        vstd::utf8::char_u32_cast(pushed, pushed as u32);
                        assert(g == pushed);
                        assert(f.take(out@.len() as int + 1) =~= f.take(out@.len() as int).push(g));
                    }
                    assert(v@.subrange(pos as int, i + 6 as int) =~= json_escaped(out@)
                        + escape_char(pushed));
                }
                out.push(pushed);
                i = i + 6;
            } else {
                proof {
                    assert forall|f: Seq<char>| !strfield_at(v@, pos as int, f) by {
                        if strfield_at(v@, pos as int, f) {
                            lemma_strfield_next(v@, pos as int, f, out@, i as int);
                            let g = f[out@.len() as int];
                            lemma_escape_classes(g);
                            assert(escape_char(g)[0] == v@[i as int]);
                            assert(escape_char(g)[1] == v@[i + 1]);
                            assert(escape_char(g)[1] == '\u{22}' || escape_char(g)[1] == '\u{5c}'
                                || escape_char(g)[1] == 'u');
                        }
                    }
                }
                return None;
            }
        } else {
            let u = c as u32;
            if u < 32 {
                proof {
                    assert forall|f: Seq<char>| !strfield_at(v@, pos as int, f) by {
                        if strfield_at(v@, pos as int, f) {
                            lemma_strfield_next(v@, pos as int, f, out@, i as int);
                            let g = f[out@.len() as int];
                            lemma_escape_classes(g);
                            assert(escape_char(g)[0] == v@[i as int]);
                        }
                    }
                }
                return None;
            }
            proof {
                lemma_json_escaped_snoc(out@, c);
                assert forall|f: Seq<char>|
                    strfield_at(v@, pos as int, f) implies out@.push(c).len() <= f.len() && f.take(
                    out@.push(c).len() as int,
                ) == out@.push(c) by {
                    lemma_strfield_next(v@, pos as int, f, out@, i as int);
                    let g = f[out@.len() as int];
                    lemma_escape_classes(g);
                    assert(escape_char(g)[0] == v@[i as int]);
                    assert(g == c);
                    assert(f.take(out@.len() as int + 1) =~= f.take(out@.len() as int).push(g));
                }
                assert(v@.subrange(pos as int, i + 1 as int) =~= json_escaped(out@) + escape_char(
                    c,
                ));
            }
            out.push(c);
            i = i + 1;
        }
    }
}

/// An integer field stands at `pos`: the characters from `pos` are exactly
/// the decimal rendering of `t`, followed by the end of input or a
/// non-digit character.
pub open spec fn intfield_at(v: Seq<char>, pos: int, t: int) -> bool {
    &&& 0 <= pos
    &&& pos + dec_int(t).len() <= v.len()
    &&& v.subrange(pos, pos + dec_int(t).len()) == dec_int(t)
    &&& (pos + dec_int(t).len() == v.len() || !is_digit(v[pos + dec_int(t).len()]))
}

proof fn lemma_pow10_mono(a: nat, b: nat)
    requires
        a <= b,
    ensures
        pow10(a) <= pow10(b),
        pow10(a) >= 1,
    decreases b,
{
    if b == 0 {
    } else if a == b {
        lemma_pow10_mono((a - 1) as nat, (b - 1) as nat);
    } else {
        lemma_pow10_mono(a, (b - 1) as nat);
    }
}

proof fn lemma_pow10_19()
    ensures
        pow10(19) == 10000000000000000000,
{
    assert(pow10(0) == 1);
    assert(pow10(1) == 10);
    assert(pow10(2) == 100);
    assert(pow10(3) == 1000);
    assert(pow10(4) == 10000);
    assert(pow10(5) == 100000);
    assert(pow10(6) == 1000000);
    assert(pow10(7) == 10000000);
    assert(pow10(8) == 100000000);
    assert(pow10(9) == 1000000000);
    assert(pow10(10) == 10000000000);
    assert(pow10(11) == 100000000000);
    assert(pow10(12) == 1000000000000);
    assert(pow10(13) == 10000000000000);
    assert(pow10(14) == 100000000000000);
    assert(pow10(15) == 1000000000000000);
    assert(pow10(16) == 10000000000000000);
    assert(pow10(17) == 100000000000000000);
    assert(pow10(18) == 1000000000000000000);
    assert(pow10(19) == 10000000000000000000);
}

proof fn lemma_dec_nat_len_le(n: nat, k: nat)
    requires
        n < pow10(k),
        k >= 1,
    ensures
        dec_nat(n).len() <= k,
{
    lemma_dec_nat_facts(n);
    if dec_nat(n).len() > k {
        lemma_pow10_mono(k, (dec_nat(n).len() - 1) as nat);
    }
}

/// A digit character renders back to itself.
proof fn lemma_dec_digit_val(c: char)
    requires
        is_digit(c),
    ensures
        0 <= digit_val(c) < 10,
        dec_digit(digit_val(c)) == c,
{
    let d = digit_val(c);
    assert(dec_digit(d) as u32 == 48 + d);
    vstd::utf8::char_u32_cast(c, c as u32);
    vstd::utf8::char_u32_cast(dec_digit(d), dec_digit(d) as u32);
}

/// A digit string without a leading zero is at least its place value.
proof fn lemma_dec_val_lower(s: Seq<char>)
    requires
        all_digits(s),
        s.len() >= 1,
        s[0] != '0',
    ensures
        dec_val(s) >= pow10((s.len() - 1) as nat),
    decreases s.len(),
{
    if s.len() == 1 {
        lemma_dec_digit_val(s[0]);
        assert(digit_val(s[0]) >= 1) by {
            if digit_val(s[0]) == 0 {
                assert(dec_digit(0int) == '0');
            }
        }
        assert(s.drop_last() =~= Seq::<char>::empty());
        assert(s.last() == s[0]);
        assert(dec_val(s.drop_last()) == 0);
        assert(pow10(0) == 1);
    } else {
        let dl = s.drop_last();
        assert(all_digits(dl));
        assert(dl[0] == s[0]);
        lemma_dec_val_lower(dl);
        lemma_dec_digit_val(s.last());
        assert(pow10((s.len() - 1) as nat) == 10 * pow10((s.len() - 2) as nat));
    }
}

/// A canonical digit string (no leading zero unless it is exactly "0")
/// renders back from its value.
proof fn lemma_canonical_digits(s: Seq<char>)
    requires
        all_digits(s),
        s.len() >= 1,
        s[0] != '0' || s.len() == 1,
    ensures
        0 <= dec_val(s),
        dec_nat(dec_val(s) as nat) == s,
    decreases s.len(),
{
    lemma_dec_val_bound(s);
    if s.len() == 1 {
        lemma_dec_digit_val(s[0]);
        assert(s.drop_last() =~= Seq::<char>::empty());
        assert(s.last() == s[0]);
        assert(dec_val(s.drop_last()) == 0);
        assert(dec_val(s) == digit_val(s[0]));
        assert(dec_nat(dec_val(s) as nat) =~= seq![dec_digit(digit_val(s[0]))]);
        assert(seq![dec_digit(digit_val(s[0]))] =~= s);
    } else {
        let dl = s.drop_last();
        assert(all_digits(dl));
        assert(dl[0] == s[0]);
        lemma_canonical_digits(dl);
        lemma_dec_val_lower(dl);
        lemma_pow10_mono(0, (dl.len() - 1) as nat);
        lemma_dec_digit_val(s.last());
        let n = dec_val(s);
        assert(n == dec_val(dl) * 10 + digit_val(s.last()));
        assert(dec_val(dl) >= 1);
        assert(n >= 10);
        assert(n / 10 == dec_val(dl) && n % 10 == digit_val(s.last()));
        assert(dec_nat(n as nat) == dec_nat((n / 10) as nat) + seq![dec_digit((n % 10) as int)]);
        assert(dec_nat(n as nat) =~= dl + seq![s.last()]);
        assert(dl + seq![s.last()] =~= s);
    }
}

/// For a matching integer field within the machine range, the sign is
/// visible at `pos` and the digit run after it is exactly the rendering of
/// the magnitude, at most nineteen digits, closed by a non-digit.
proof fn lemma_intfield_shape(v: Seq<char>, pos: int, t: int)
    requires
        intfield_at(v, pos, t),
        -0x8000000000000000 <= t < 0x8000000000000000,
    ensures
        pos < v.len(),
        (t < 0) <==> v[pos] == '-',
        ({
            let start = if t < 0 { pos + 1 } else { pos };
            let digits = dec_nat((if t < 0 { -t } else { t }) as nat);
            &&& start + digits.len() <= v.len()
            &&& v.subrange(start, start + digits.len()) == digits
            &&& (forall|j: int| start <= j < start + digits.len() ==> is_digit(v[j]))
            &&& (start + digits.len() == v.len() || !is_digit(v[start + digits.len()]))
            &&& 1 <= digits.len() <= 19
            &&& (digits.len() > 1 ==> digits[0] != '0')
            &&& dec_val(digits) == (if t < 0 { -t } else { t })
            &&& dec_int(t).len() == (if t < 0 { 1int } else { 0int }) + digits.len()
        }),
{
    let m: nat = (if t < 0 { -t } else { t }) as nat;
    let digits = dec_nat(m);
    lemma_dec_nat_facts(m);
    lemma_pow10_19();
    lemma_dec_nat_len_le(m, 19);
    let start = if t < 0 { pos + 1 } else { pos };
    let l = dec_int(t).len() as int;
    if t < 0 {
        assert(dec_int(t) == seq!['-'] + digits);
        assert(v[pos] == v.subrange(pos, pos + l)[0]);
        assert((seq!['-'] + digits)[0] == '-');
    } else {
        assert(dec_int(t) == digits);
        assert(v[pos] == v.subrange(pos, pos + l)[0]);
        assert(digits[0] != '-') by {
            assert(is_digit(digits[0]));
        }
    }
    assert(v.subrange(start, start + digits.len()) =~= digits) by {
        assert forall|j: int| 0 <= j < digits.len() implies v.subrange(
            start,
            start + digits.len(),
        )[j] == digits[j] by {
            assert(v.subrange(pos, pos + l)[start - pos + j] == v[start + j]);
            if t < 0 {
                assert((seq!['-'] + digits)[1 + j] == digits[j]);
            }
        }
    }
    assert forall|j: int| start <= j < start + digits.len() implies is_digit(v[j]) by {
        assert(v[j] == v.subrange(start, start + digits.len())[j - start]);
    }
}

fn is_digit_exec(c: char) -> (r: bool)
    ensures
        r == is_digit(c),
{
    let u = c as u32;
    48 <= u && u <= 57
}

/// The end of the digit run that starts at `start`.
fn digit_run_end(v: &Vec<char>, start: usize) -> (r: usize)
    requires
        start <= v@.len(),
    ensures
        start <= r <= v@.len(),
        forall|j: int| start <= j < r ==> is_digit(v@[j]),
        r == v@.len() || !is_digit(v@[r as int]),
{
    let n = v.len();
    let mut i: usize = start;
    loop
        invariant
            start <= i <= n,
            n == v@.len(),
            forall|j: int| start <= j < i ==> is_digit(v@[j]),
        decreases n - i,
    {
        if i >= n {
            return i;
        }
        if !is_digit_exec(v[i]) {
            return i;
        }
        i = i + 1;
    }
}

/// Parses a canonical decimal integer in the 64-bit signed range: an
/// optional minus sign, then digits without a leading zero, read up to the
/// first non-digit.  Sound (the consumed region renders the result) and
/// complete (a region rendering some 64-bit integer parses to it).
fn parse_i64(v: &Vec<char>, pos: usize) -> (r: Option<(i64, usize)>)
    requires
        pos <= v@.len(),
    ensures
        r matches Some((t, p)) ==> pos < p <= v@.len() && p == pos + dec_int(t as int).len()
            && v@.subrange(pos as int, p as int) == dec_int(t as int),
        forall|t: i64|
            intfield_at(v@, pos as int, t as int) ==> (r matches Some((t2, p)) && t2 == t && p
                == pos + dec_int(t as int).len()),
{
    let n = v.len();
    let neg = pos < n && v[pos] == '-';
    let start = if neg {
        pos + 1
    } else {
        pos
    };
    proof {
        assert forall|t: i64|
            intfield_at(v@, pos as int, t as int) implies ((t < 0) <==> neg) by {
            lemma_intfield_shape(v@, pos as int, t as int);
        }
    }
    let end = digit_run_end(v, start);
    proof {
        lemma_pow10_19();
        assert forall|t: i64|
            intfield_at(v@, pos as int, t as int) implies end == start + dec_nat(
            (if t < 0 { -(t as int) } else { t as int }) as nat,
        ).len() by {
            lemma_intfield_shape(v@, pos as int, t as int);
            let digits = dec_nat((if t < 0 { -(t as int) } else { t as int }) as nat);
            if end < start + digits.len() {
                assert(is_digit(v@[end as int]));
            }
            if end > start + digits.len() {
                assert(is_digit(v@[start + digits.len()]));
            }
        }
    }
    let count = end - start;
    if count == 0 || count > 19 {
        proof {
            assert forall|t: i64| !intfield_at(v@, pos as int, t as int) by {
                if intfield_at(v@, pos as int, t as int) {
                    lemma_intfield_shape(v@, pos as int, t as int);
                }
            }
        }
        return None;
    }
    if count > 1 && v[start] == '0' {
        proof {
            assert forall|t: i64| !intfield_at(v@, pos as int, t as int) by {
                if intfield_at(v@, pos as int, t as int) {
                    lemma_intfield_shape(v@, pos as int, t as int);
                    let digits = dec_nat((if t < 0 { -(t as int) } else { t as int }) as nat);
                    assert(v@[start as int] == v@.subrange(start as int, start + digits.len())[0]);
                }
            }
        }
        return None;
    }
    let mut acc: u64 = 0;
    let mut j: usize = start;
    while j < end
        invariant
            start <= j <= end <= v@.len(),
            end - start == count,
            1 <= count <= 19,
            forall|k: int| start <= k < end ==> is_digit(v@[k]),
            acc == dec_val(v@.subrange(start as int, j as int)),
            acc < pow10((j - start) as nat),
        decreases end - j,
    {
        proof {
            lemma_pow10_19();
            lemma_pow10_mono((j - start) as nat, 18);
            lemma_dec_digit_val(v@[j as int]);
            assert(v@.subrange(start as int, j + 1 as int).drop_last() =~= v@.subrange(
                start as int,
                j as int,
            ));
            assert(v@.subrange(start as int, j + 1 as int).last() == v@[j as int]);
        }
        let d = ((v[j] as u32) - 48) as u64;
        acc = acc * 10 + d;
        j = j + 1;
        proof {
            assert(pow10((j - start) as nat) == 10 * pow10((j - 1 - start) as nat));
        }
    }
    proof {
        lemma_pow10_19();
        assert forall|t: i64|
            intfield_at(v@, pos as int, t as int) implies acc == (if t < 0 {
            -(t as int)
        } else {
            t as int
        }) by {
            lemma_intfield_shape(v@, pos as int, t as int);
            let digits = dec_nat((if t < 0 { -(t as int) } else { t as int }) as nat);
            assert(v@.subrange(start as int, end as int) == digits);
        }
    }
    if neg {
        if acc == 0 || acc > 9223372036854775808 {
            proof {
                assert forall|t: i64| !intfield_at(v@, pos as int, t as int) by {
                    if intfield_at(v@, pos as int, t as int) {
                        lemma_intfield_shape(v@, pos as int, t as int);
                    }
                }
            }
            return None;
        }
        let t: i64 = if acc == 9223372036854775808 {
            i64::MIN
        } else {
            -(acc as i64)
        };
        proof {
            let digits = v@.subrange(start as int, end as int);
            lemma_canonical_digits(digits);
            assert(dec_int(t as int) =~= seq!['-'] + dec_nat(acc as nat));
            assert(v@.subrange(pos as int, end as int) =~= seq![v@[pos as int]] + digits);
            assert(v@.subrange(pos as int, end as int) =~= dec_int(t as int));
        }
        Some((t, end))
    } else {
        if acc > 9223372036854775807 {
            proof {
                assert forall|t: i64| !intfield_at(v@, pos as int, t as int) by {
                    if intfield_at(v@, pos as int, t as int) {
                        lemma_intfield_shape(v@, pos as int, t as int);
                        assert(v@[pos as int] != '-');
                    }
                }
            }
            return None;
        }
        let t: i64 = acc as i64;
        proof {
            let digits = v@.subrange(start as int, end as int);
            lemma_canonical_digits(digits);
            assert(dec_int(t as int) == dec_nat(acc as nat));
            assert(v@.subrange(pos as int, end as int) =~= digits);
        }
        Some((t, end))
    }
}

/// Matches the characters of `lit` at `pos` and steps past them.
fn expect_lit(v: &Vec<char>, pos: usize, lit: &str) -> (r: Option<usize>)
    ensures
        r matches Some(p) ==> p == pos + lit@.len() && p <= v@.len() && v@.subrange(
            pos as int,
            p as int,
        ) == lit@,
        r is None ==> !(pos + lit@.len() <= v@.len() && v@.subrange(
            pos as int,
            pos + lit@.len(),
        ) == lit@),
{
    let pat = str_to_chars(lit);
    if pos > v.len() || pat.len() > v.len() - pos {
        return None;
    }
    if matches_at(v, &pat, pos) {
        Some(pos + pat.len())
    } else {
        None
    }
}

/// Splits a range equality into the equality of its first piece and of the
/// remainder.
proof fn lemma_split(v: Seq<char>, a: int, b: int, x: Seq<char>, y: Seq<char>)
    requires
        0 <= a <= b <= v.len(),
        v.subrange(a, b) == x + y,
    ensures
        b - a == x.len() + y.len(),
        v.subrange(a, a + x.len()) == x,
        v.subrange(a + x.len(), b) == y,
{
    assert(v.subrange(a, b).len() == x.len() + y.len());
    assert(v.subrange(a, a + x.len()) =~= x) by {
        assert forall|j: int| 0 <= j < x.len() implies v.subrange(a, a + x.len())[j] == x[j] by {
            assert(v[a + j] == v.subrange(a, b)[j]);
            assert((x + y)[j] == x[j]);
        }
    }
    assert(v.subrange(a + x.len(), b) =~= y) by {
        assert forall|j: int| 0 <= j < y.len() implies v.subrange(a + x.len(), b)[j] == y[j] by {
            assert(v[a + x.len() + j] == v.subrange(a, b)[x.len() + j]);
            assert((x + y)[x.len() + j] == y[j]);
        }
    }
}

/// Joins two adjacent range equalities into one.
proof fn lemma_join(v: Seq<char>, a: int, m: int, b: int, x: Seq<char>, y: Seq<char>)
    requires
        0 <= a <= m <= b <= v.len(),
        v.subrange(a, m) == x,
        v.subrange(m, b) == y,
    ensures
        v.subrange(a, b) == x + y,
{
    assert(v.subrange(a, b) =~= x + y) by {
        assert forall|j: int| 0 <= j < b - a implies v.subrange(a, b)[j] == (x + y)[j] by {
            if j < m - a {
                assert(v[a + j] == v.subrange(a, m)[j]);
            } else {
                assert(v[a + j] == v.subrange(m, b)[j - (m - a)]);
            }
        }
    }
}

/// The pieces of a canonical envelope document, located: each key literal,
/// each escaped field closed by its quote, and the timestamp, in order.
#[verifier::rlimit(100)]
proof fn lemma_envelope_json_parse(v: Seq<char>, e: EnvelopeView)
    requires
        v == envelope_json(e),
    ensures
        ({
            let q1 = "{\"id\":\""@.len() as int;
            let q2 = q1 + json_escaped(e.id).len() + 1;
            let q3 = q2 + ",\"from_ledger_id\":\""@.len();
            let q4 = q3 + json_escaped(e.from_ledger_id).len() + 1;
            let q5 = q4 + ",\"to_ledger_id\":\""@.len();
            let q6 = q5 + json_escaped(e.to_ledger_id).len() + 1;
            let q7 = q6 + ",\"ephemeral_pubkey\":\""@.len();
            let q8 = q7 + json_escaped(e.ephemeral_pubkey).len() + 1;
            let q9 = q8 + ",\"encrypted_body\":\""@.len();
            let q10 = q9 + json_escaped(e.encrypted_body).len() + 1;
            let q11 = q10 + ",\"nonce\":\""@.len();
            let q12 = q11 + json_escaped(e.nonce).len() + 1;
            let q13 = q12 + ",\"signature\":\""@.len();
            let q14 = q13 + json_escaped(e.signature).len() + 1;
            let q15 = q14 + ",\"timestamp\":"@.len();
            let q16 = q15 + dec_int(e.timestamp as int).len();
            let q17 = q16 + ",\"subject_hint\":\""@.len();
            let q18 = q17 + json_escaped(e.subject_hint).len() + 1;
            &&& v.subrange(0, q1) == "{\"id\":\""@
            &&& strfield_at(v, q1, e.id)
            &&& v.subrange(q2, q3) == ",\"from_ledger_id\":\""@
            &&& strfield_at(v, q3, e.from_ledger_id)
            &&& v.subrange(q4, q5) == ",\"to_ledger_id\":\""@
            &&& strfield_at(v, q5, e.to_ledger_id)
            &&& v.subrange(q6, q7) == ",\"ephemeral_pubkey\":\""@
            &&& strfield_at(v, q7, e.ephemeral_pubkey)
            &&& v.subrange(q8, q9) == ",\"encrypted_body\":\""@
            &&& strfield_at(v, q9, e.encrypted_body)
            &&& v.subrange(q10, q11) == ",\"nonce\":\""@
            &&& strfield_at(v, q11, e.nonce)
            &&& v.subrange(q12, q13) == ",\"signature\":\""@
            &&& strfield_at(v, q13, e.signature)
            &&& v.subrange(q14, q15) == ",\"timestamp\":"@
            &&& intfield_at(v, q15, e.timestamp as int)
            &&& v.subrange(q16, q17) == ",\"subject_hint\":\""@
            &&& strfield_at(v, q17, e.subject_hint)
            &&& v.subrange(q18, v.len() as int) == "}"@
            &&& v.len() == q18 + "}"@.len()
        }),
{
    let pq = seq!['"'];
    let pc1 = "{\"id\":\""@;
    let pe1 = json_escaped(e.id);
    let pc2 = ",\"from_ledger_id\":\""@;
    let pe2 = json_escaped(e.from_ledger_id);
    let pc3 = ",\"to_ledger_id\":\""@;
    let pe3 = json_escaped(e.to_ledger_id);
    let pc4 = ",\"ephemeral_pubkey\":\""@;
    let pe4 = json_escaped(e.ephemeral_pubkey);
    let pc5 = ",\"encrypted_body\":\""@;
    let pe5 = json_escaped(e.encrypted_body);
    let pc6 = ",\"nonce\":\""@;
    let pe6 = json_escaped(e.nonce);
    let pc7 = ",\"signature\":\""@;
    let pe7 = json_escaped(e.signature);
    let pc8 = ",\"timestamp\":"@;
    let pd = dec_int(e.timestamp as int);
    let pc9 = ",\"subject_hint\":\""@;
    let pe9 = json_escaped(e.subject_hint);
    let pc10 = "}"@;
    let l1 = pc1;
    let l2 = l1 + pe1;
    let l3 = l2 + pq;
    let l4 = l3 + pc2;
    let l5 = l4 + pe2;
    let l6 = l5 + pq;
    let l7 = l6 + pc3;
    let l8 = l7 + pe3;
    let l9 = l8 + pq;
    let l10 = l9 + pc4;
    let l11 = l10 + pe4;
    let l12 = l11 + pq;
    let l13 = l12 + pc5;
    let l14 = l13 + pe5;
    let l15 = l14 + pq;
    let l16 = l15 + pc6;
    let l17 = l16 + pe6;
    let l18 = l17 + pq;
    let l19 = l18 + pc7;
    let l20 = l19 + pe7;
    let l21 = l20 + pq;
    let l22 = l21 + pc8;
    let l23 = l22 + pd;
    let l24 = l23 + pc9;
    let l25 = l24 + pe9;
    let l26 = l25 + pq;
    let l27 = l26 + pc10;
    assert(v == l27);
    assert(v.subrange(0, v.len() as int) =~= v);
    lemma_split(v, 0, v.len() as int, l26, pc10);
    lemma_split(v, 0, l26.len() as int, l25, pq);
    lemma_split(v, 0, l25.len() as int, l24, pe9);
    lemma_split(v, 0, l24.len() as int, l23, pc9);
    lemma_split(v, 0, l23.len() as int, l22, pd);
    lemma_split(v, 0, l22.len() as int, l21, pc8);
    lemma_split(v, 0, l21.len() as int, l20, pq);
    lemma_split(v, 0, l20.len() as int, l19, pe7);
    lemma_split(v, 0, l19.len() as int, l18, pc7);
    lemma_split(v, 0, l18.len() as int, l17, pq);
    lemma_split(v, 0, l17.len() as int, l16, pe6);
    lemma_split(v, 0, l16.len() as int, l15, pc6);
    lemma_split(v, 0, l15.len() as int, l14, pq);
    lemma_split(v, 0, l14.len() as int, l13, pe5);
    lemma_split(v, 0, l13.len() as int, l12, pc5);
    lemma_split(v, 0, l12.len() as int, l11, pq);
    lemma_split(v, 0, l11.len() as int, l10, pe4);
    lemma_split(v, 0, l10.len() as int, l9, pc4);
    lemma_split(v, 0, l9.len() as int, l8, pq);
    lemma_split(v, 0, l8.len() as int, l7, pe3);
    lemma_split(v, 0, l7.len() as int, l6, pc3);
    lemma_split(v, 0, l6.len() as int, l5, pq);
    lemma_split(v, 0, l5.len() as int, l4, pe2);
    lemma_split(v, 0, l4.len() as int, l3, pc2);
    lemma_split(v, 0, l3.len() as int, l2, pq);
    lemma_split(v, 0, l2.len() as int, l1, pe1);
    lemma_join(v, l1.len() as int, l2.len() as int, l3.len() as int, pe1, pq);
    lemma_join(v, l4.len() as int, l5.len() as int, l6.len() as int, pe2, pq);
    lemma_join(v, l7.len() as int, l8.len() as int, l9.len() as int, pe3, pq);
    lemma_join(v, l10.len() as int, l11.len() as int, l12.len() as int, pe4, pq);
    lemma_join(v, l13.len() as int, l14.len() as int, l15.len() as int, pe5, pq);
    lemma_join(v, l16.len() as int, l17.len() as int, l18.len() as int, pe6, pq);
    lemma_join(v, l19.len() as int, l20.len() as int, l21.len() as int, pe7, pq);
    lemma_join(v, l24.len() as int, l25.len() as int, l26.len() as int, pe9, pq);
    reveal_strlit(",\"subject_hint\":\"");
    assert(v[l23.len() as int] == v.subrange(l23.len() as int, l24.len() as int)[0]);
    assert(!is_digit(','));
    assert(intfield_at(v, l22.len() as int, e.timestamp as int));
}



fn parse_error() -> (r: LedgerError)
    ensures
        r is ParseError,
{
    LedgerError::ParseError(String::from_str("malformed envelope"))
}

/// Parses the canonical JSON document of an envelope.  Succeeds exactly on
/// canonical documents: a successful parse renders back to the input, and an
/// input that renders some envelope parses to that envelope.
#[verifier::rlimit(100)]
#[verifier::spinoff_prover]
pub fn envelope_from_json(s: &str) -> (r: Result<EncryptedEnvelope, LedgerError>)
    ensures
        r matches Ok(env) ==> s@ == envelope_json(env@),
        forall|e: EnvelopeView| s@ == envelope_json(e) ==> (r matches Ok(env) && env@ == e),
        r matches Err(err) ==> err is ParseError,
{
    let v = str_to_chars(s);
    let ghost mut acc: Seq<char> = Seq::empty();
    proof {
        assert(v@.subrange(0, 0) =~= acc);
    }
    let p1 = match expect_lit(&v, 0, "{\"id\":\"") {
        Some(p) => p,
        None => {
            proof {{
                assert forall|e: EnvelopeView| s@ != envelope_json(e) by {{
                    if s@ == envelope_json(e) {{
                        lemma_envelope_json_parse(v@, e);
                    }}
                }}
            }}
            return Err(parse_error());
        },
    };
    proof {
        lemma_join(v@, 0, 0 as int, p1 as int, acc, "{\"id\":\""@);
        acc = acc + "{\"id\":\""@;
    }
    let (id_s, p2) = match parse_string(&v, p1) {
        Some(x) => x,
        None => {
            proof {{
                assert forall|e: EnvelopeView| s@ != envelope_json(e) by {{
                    if s@ == envelope_json(e) {{
                        lemma_envelope_json_parse(v@, e);
                    }}
                }}
            }}
            return Err(parse_error());
        },
    };
    proof {
        lemma_split(v@, p1 as int, p2 as int, json_escaped(id_s@), seq!['"']);
        lemma_join(v@, 0, p1 as int, p1 as int + json_escaped(id_s@).len(), acc,
            json_escaped(id_s@));
        acc = acc + json_escaped(id_s@);
        lemma_join(v@, 0, p1 as int + json_escaped(id_s@).len(), p2 as int, acc,
            seq!['"']);
        acc = acc + seq!['"'];
    }
    let p3 = match expect_lit(&v, p2, ",\"from_ledger_id\":\"") {
        Some(p) => p,
        None => {
            proof {{
                assert forall|e: EnvelopeView| s@ != envelope_json(e) by {{
                    if s@ == envelope_json(e) {{
                        lemma_envelope_json_parse(v@, e);
                    }}
                }}
            }}
            return Err(parse_error());
        },
    };
    proof {
        lemma_join(v@, 0, p2 as int, p3 as int, acc, ",\"from_ledger_id\":\""@);
        acc = acc + ",\"from_ledger_id\":\""@;
    }
    let (from_s, p4) = match parse_string(&v, p3) {
        Some(x) => x,
        None => {
            proof {{
                assert forall|e: EnvelopeView| s@ != envelope_json(e) by {{
                    if s@ == envelope_json(e) {{
                        lemma_envelope_json_parse(v@, e);
                    }}
                }}
            }}
            return Err(parse_error());
        },
    };
    proof {
        lemma_split(v@, p3 as int, p4 as int, json_escaped(from_s@), seq!['"']);
        lemma_join(v@, 0, p3 as int, p3 as int + json_escaped(from_s@).len(), acc,
            json_escaped(from_s@));
        acc = acc + json_escaped(from_s@);
        lemma_join(v@, 0, p3 as int + json_escaped(from_s@).len(), p4 as int, acc,
            seq!['"']);
        acc = acc + seq!['"'];
    }
    let p5 = match expect_lit(&v, p4, ",\"to_ledger_id\":\"") {
        Some(p) => p,
        None => {
            proof {{
                assert forall|e: EnvelopeView| s@ != envelope_json(e) by {{
                    if s@ == envelope_json(e) {{
                        lemma_envelope_json_parse(v@, e);
                    }}
                }}
            }}
            return Err(parse_error());
        },
    };
    proof {
        lemma_join(v@, 0, p4 as int, p5 as int, acc, ",\"to_ledger_id\":\""@);
        acc = acc + ",\"to_ledger_id\":\""@;
    }
    let (to_s, p6) = match parse_string(&v, p5) {
        Some(x) => x,
        None => {
            proof {{
                assert forall|e: EnvelopeView| s@ != envelope_json(e) by {{
                    if s@ == envelope_json(e) {{
                        lemma_envelope_json_parse(v@, e);
                    }}
                }}
            }}
            return Err(parse_error());
        },
    };
    proof {
        lemma_split(v@, p5 as int, p6 as int, json_escaped(to_s@), seq!['"']);
        lemma_join(v@, 0, p5 as int, p5 as int + json_escaped(to_s@).len(), acc,
            json_escaped(to_s@));
        acc = acc + json_escaped(to_s@);
        lemma_join(v@, 0, p5 as int + json_escaped(to_s@).len(), p6 as int, acc,
            seq!['"']);
        acc = acc + seq!['"'];
    }
    let p7 = match expect_lit(&v, p6, ",\"ephemeral_pubkey\":\"") {
        Some(p) => p,
        None => {
            proof {{
                assert forall|e: EnvelopeView| s@ != envelope_json(e) by {{
                    if s@ == envelope_json(e) {{
                        lemma_envelope_json_parse(v@, e);
                    }}
                }}
            }}
            return Err(parse_error());
        },
    };
    proof {
        lemma_join(v@, 0, p6 as int, p7 as int, acc, ",\"ephemeral_pubkey\":\""@);
        acc = acc + ",\"ephemeral_pubkey\":\""@;
    }
    let (eph_s, p8) = match parse_string(&v, p7) {
        Some(x) => x,
        None => {
            proof {{
                assert forall|e: EnvelopeView| s@ != envelope_json(e) by {{
                    if s@ == envelope_json(e) {{
                        lemma_envelope_json_parse(v@, e);
                    }}
                }}
            }}
            return Err(parse_error());
        },
    };
    proof {
        lemma_split(v@, p7 as int, p8 as int, json_escaped(eph_s@), seq!['"']);
        lemma_join(v@, 0, p7 as int, p7 as int + json_escaped(eph_s@).len(), acc,
            json_escaped(eph_s@));
        acc = acc + json_escaped(eph_s@);
        lemma_join(v@, 0, p7 as int + json_escaped(eph_s@).len(), p8 as int, acc,
            seq!['"']);
        acc = acc + seq!['"'];
    }
    let p9 = match expect_lit(&v, p8, ",\"encrypted_body\":\"") {
        Some(p) => p,
        None => {
            proof {{
                assert forall|e: EnvelopeView| s@ != envelope_json(e) by {{
                    if s@ == envelope_json(e) {{
                        lemma_envelope_json_parse(v@, e);
                    }}
                }}
            }}
            return Err(parse_error());
        },
    };
    proof {
        lemma_join(v@, 0, p8 as int, p9 as int, acc, ",\"encrypted_body\":\""@);
        acc = acc + ",\"encrypted_body\":\""@;
    }
    let (body_s, p10) = match parse_string(&v, p9) {
        Some(x) => x,
        None => {
            proof {{
                assert forall|e: EnvelopeView| s@ != envelope_json(e) by {{
                    if s@ == envelope_json(e) {{
                        lemma_envelope_json_parse(v@, e);
                    }}
                }}
            }}
            return Err(parse_error());
        },
    };
    proof {
        lemma_split(v@, p9 as int, p10 as int, json_escaped(body_s@), seq!['"']);
        lemma_join(v@, 0, p9 as int, p9 as int + json_escaped(body_s@).len(), acc,
            json_escaped(body_s@));
        acc = acc + json_escaped(body_s@);
        lemma_join(v@, 0, p9 as int + json_escaped(body_s@).len(), p10 as int, acc,
            seq!['"']);
        acc = acc + seq!['"'];
    }
    let p11 = match expect_lit(&v, p10, ",\"nonce\":\"") {
        Some(p) => p,
        None => {
            proof {{
                assert forall|e: EnvelopeView| s@ != envelope_json(e) by {{
                    if s@ == envelope_json(e) {{
                        lemma_envelope_json_parse(v@, e);
                    }}
                }}
            }}
            return Err(parse_error());
        },
    };
    proof {
        lemma_join(v@, 0, p10 as int, p11 as int, acc, ",\"nonce\":\""@);
        acc = acc + ",\"nonce\":\""@;
    }
    let (nonce_s, p12) = match parse_string(&v, p11) {
        Some(x) => x,
        None => {
            proof {{
                assert forall|e: EnvelopeView| s@ != envelope_json(e) by {{
                    if s@ == envelope_json(e) {{
                        lemma_envelope_json_parse(v@, e);
                    }}
                }}
            }}
            return Err(parse_error());
        },
    };
    proof {
        lemma_split(v@, p11 as int, p12 as int, json_escaped(nonce_s@), seq!['"']);
        lemma_join(v@, 0, p11 as int, p11 as int + json_escaped(nonce_s@).len(), acc,
            json_escaped(nonce_s@));
        acc = acc + json_escaped(nonce_s@);
        lemma_join(v@, 0, p11 as int + json_escaped(nonce_s@).len(), p12 as int, acc,
            seq!['"']);
        acc = acc + seq!['"'];
    }
    let p13 = match expect_lit(&v, p12, ",\"signature\":\"") {
        Some(p) => p,
        None => {
            proof {{
                assert forall|e: EnvelopeView| s@ != envelope_json(e) by {{
                    if s@ == envelope_json(e) {{
                        lemma_envelope_json_parse(v@, e);
                    }}
                }}
            }}
            return Err(parse_error());
        },
    };
    proof {
        lemma_join(v@, 0, p12 as int, p13 as int, acc, ",\"signature\":\""@);
        acc = acc + ",\"signature\":\""@;
    }
    let (sig_s, p14) = match parse_string(&v, p13) {
        Some(x) => x,
        None => {
            proof {{
                assert forall|e: EnvelopeView| s@ != envelope_json(e) by {{
                    if s@ == envelope_json(e) {{
                        lemma_envelope_json_parse(v@, e);
                    }}
                }}
            }}
            return Err(parse_error());
        },
    };
    proof {
        lemma_split(v@, p13 as int, p14 as int, json_escaped(sig_s@), seq!['"']);
        lemma_join(v@, 0, p13 as int, p13 as int + json_escaped(sig_s@).len(), acc,
            json_escaped(sig_s@));
        acc = acc + json_escaped(sig_s@);
        lemma_join(v@, 0, p13 as int + json_escaped(sig_s@).len(), p14 as int, acc,
            seq!['"']);
        acc = acc + seq!['"'];
    }
    let p15 = match expect_lit(&v, p14, ",\"timestamp\":") {
        Some(p) => p,
        None => {
            proof {{
                assert forall|e: EnvelopeView| s@ != envelope_json(e) by {{
                    if s@ == envelope_json(e) {{
                        lemma_envelope_json_parse(v@, e);
                    }}
                }}
            }}
            return Err(parse_error());
        },
    };
    proof {
        lemma_join(v@, 0, p14 as int, p15 as int, acc, ",\"timestamp\":"@);
        acc = acc + ",\"timestamp\":"@;
    }
    let (ts, p16) = match parse_i64(&v, p15) {
        Some(x) => x,
        None => {
            proof {{
                assert forall|e: EnvelopeView| s@ != envelope_json(e) by {{
                    if s@ == envelope_json(e) {{
                        lemma_envelope_json_parse(v@, e);
                    }}
                }}
            }}
            return Err(parse_error());
        },
    };
    proof {
        lemma_join(v@, 0, p15 as int, p16 as int, acc, dec_int(ts as int));
        acc = acc + dec_int(ts as int);
    }
    let p17 = match expect_lit(&v, p16, ",\"subject_hint\":\"") {
        Some(p) => p,
        None => {
            proof {{
                assert forall|e: EnvelopeView| s@ != envelope_json(e) by {{
                    if s@ == envelope_json(e) {{
                        lemma_envelope_json_parse(v@, e);
                    }}
                }}
            }}
            return Err(parse_error());
        },
    };
    proof {
        lemma_join(v@, 0, p16 as int, p17 as int, acc, ",\"subject_hint\":\""@);
        acc = acc + ",\"subject_hint\":\""@;
    }
    let (subj_s, p18) = match parse_string(&v, p17) {
        Some(x) => x,
        None => {
            proof {{
                assert forall|e: EnvelopeView| s@ != envelope_json(e) by {{
                    if s@ == envelope_json(e) {{
                        lemma_envelope_json_parse(v@, e);
                    }}
                }}
            }}
            return Err(parse_error());
        },
    };
    proof {
        lemma_split(v@, p17 as int, p18 as int, json_escaped(subj_s@), seq!['"']);
        lemma_join(v@, 0, p17 as int, p17 as int + json_escaped(subj_s@).len(), acc,
            json_escaped(subj_s@));
        acc = acc + json_escaped(subj_s@);
        lemma_join(v@, 0, p17 as int + json_escaped(subj_s@).len(), p18 as int, acc,
            seq!['"']);
        acc = acc + seq!['"'];
    }
    let p19 = match expect_lit(&v, p18, "}") {
        Some(p) => p,
        None => {
            proof {{
                assert forall|e: EnvelopeView| s@ != envelope_json(e) by {{
                    if s@ == envelope_json(e) {{
                        lemma_envelope_json_parse(v@, e);
                    }}
                }}
            }}
            return Err(parse_error());
        },
    };
    proof {
        lemma_join(v@, 0, p18 as int, p19 as int, acc, "}"@);
        acc = acc + "}"@;
    }
    if p19 != v.len() {
            proof {{
            assert forall|e: EnvelopeView| s@ != envelope_json(e) by {{
                if s@ == envelope_json(e) {{
                    lemma_envelope_json_parse(v@, e);
                }}
            }}
        }}
        return Err(parse_error());
    }
    let env = EncryptedEnvelope {
        id: id_s,
        from_ledger_id: from_s,
        to_ledger_id: to_s,
        ephemeral_pubkey: eph_s,
        encrypted_body: body_s,
        nonce: nonce_s,
        signature: sig_s,
        timestamp: ts,
        subject_hint: subj_s,
    };
    proof {
        assert(v@.subrange(0, v@.len() as int) =~= v@);
        assert(s@ == acc);
        assert(acc == envelope_json(env@));
        assert forall|e: EnvelopeView| s@ == envelope_json(e) implies env@ =~= e by {
            lemma_envelope_json_parse(v@, e);
        }
    }
    Ok(env)
}

} // verus!

//! The persisted form of the vault: a canonical JSON object
//! `{"credentials":[...]}` whose entries are objects with the four credential
//! fields in declaration order, with the standard JSON string escaping
//! (`\"`, `\\`, `\b`, `\t`, `\n`, `\f`, `\r`, and `\u00XX` with lowercase hex
//! for the remaining control bytes) and no added whitespace.
//!
//! The encoder and decoder are both verified against total specification
//! functions, and decoding an encoding is proved to give back the vault.

use vstd::prelude::*;
use vstd::utf8::{decode_utf8, encode_utf8, valid_utf8};

use crate::credentials::{Credential, CredentialView, Credentials};

verus! {

/// The lowercase hexadecimal digit byte for a value below 16.
pub open spec fn hex_digit_byte(v: int) -> u8
    recommends
        0 <= v < 16,
{
    if v < 10 {
        (0x30 + v) as u8
    } else {
        (0x57 + v) as u8
    }
}

/// Whether a byte is a lowercase hexadecimal digit.
pub open spec fn is_hex_lower(b: u8) -> bool {
    (0x30 <= b <= 0x39) || (0x61 <= b <= 0x66)
}

/// The value of a lowercase hexadecimal digit byte.
pub open spec fn hex_val(b: u8) -> int
    recommends
        is_hex_lower(b),
{
    if b <= 0x39 {
        b - 0x30
    } else {
        b - 0x61 + 10
    }
}

/// The canonical escaping of one byte of string content: the quote and the
/// backslash take two-byte escapes, the five named control bytes take their
/// short escapes, every other control byte takes `\u00XX` with lowercase
/// hexadecimal digits, and everything else stands for itself.
pub open spec fn escape_byte(b: u8) -> Seq<u8> {
    if b == 0x22 {
        seq![0x5Cu8, 0x22u8]
    } else if b == 0x5C {
        seq![0x5Cu8, 0x5Cu8]
    } else if b == 0x08 {
        seq![0x5Cu8, 0x62u8]
    } else if b == 0x09 {
        seq![0x5Cu8, 0x74u8]
    } else if b == 0x0A {
        seq![0x5Cu8, 0x6Eu8]
    } else if b == 0x0C {
        seq![0x5Cu8, 0x66u8]
    } else if b == 0x0D {
        seq![0x5Cu8, 0x72u8]
    } else if b < 0x20 {
        seq![
            0x5Cu8,
            0x75u8,
            0x30u8,
            0x30u8,
            hex_digit_byte(b as int / 16),
            hex_digit_byte(b as int % 16),
        ]
    } else {
        seq![b]
    }
}

/// The canonical escaping of a whole byte sequence.
pub open spec fn spec_escape(b: Seq<u8>) -> Seq<u8>
    decreases b.len(),
{
    if b.len() == 0 {
        seq![]
    } else {
        escape_byte(b[0]) + spec_escape(b.drop_first())
    }
}

/// The canonical JSON string encoding of a character sequence: its UTF-8
/// bytes, escaped, between double quotes.
pub open spec fn spec_encode_string(s: Seq<char>) -> Seq<u8> {
    seq![0x22u8] + spec_escape(encode_utf8(s)) + seq![0x22u8]
}

/// The opening bytes of the vault object, up to and including the `[`.
pub open spec fn lit_vault_open() -> Seq<u8> {
    encode_utf8("{\"credentials\":["@)
}

/// The opening bytes of a credential object, up to and including the colon
/// after its first key.
pub open spec fn lit_name() -> Seq<u8> {
    encode_utf8("{\"name\":"@)
}

/// The separator and key before a credential's url field.
pub open spec fn lit_url() -> Seq<u8> {
    encode_utf8(",\"url\":"@)
}

/// The separator and key before a credential's username field.
pub open spec fn lit_username() -> Seq<u8> {
    encode_utf8(",\"username\":"@)
}

/// The separator and key before a credential's password field.
pub open spec fn lit_password() -> Seq<u8> {
    encode_utf8(",\"password\":"@)
}

/// The canonical encoding of one credential object.
pub open spec fn spec_encode_credential(c: CredentialView) -> Seq<u8> {
    lit_name() + spec_encode_string(c.name) + lit_url() + spec_encode_string(c.url)
        + lit_username() + spec_encode_string(c.username) + lit_password() + spec_encode_string(
        c.password,
    ) + seq![0x7Du8]
}

/// The canonical encoding of a credential list, comma-separated.
pub open spec fn spec_encode_creds(l: Seq<CredentialView>) -> Seq<u8>
    decreases l.len(),
{
    if l.len() == 0 {
        seq![]
    } else if l.len() == 1 {
        spec_encode_credential(l[0])
    } else {
        spec_encode_credential(l[0]) + seq![0x2Cu8] + spec_encode_creds(l.drop_first())
    }
}

/// The canonical encoding of a whole vault.
pub open spec fn spec_encode_vault(l: Seq<CredentialView>) -> Seq<u8> {
    lit_vault_open() + spec_encode_creds(l) + seq![0x5Du8, 0x7Du8]
}

/// Escaping distributes over concatenation.
proof fn lemma_escape_concat(a: Seq<u8>, b: Seq<u8>)
    ensures
        spec_escape(a + b) == spec_escape(a) + spec_escape(b),
    decreases a.len(),
{
    if a.len() == 0 {
        assert(a + b =~= b);
        assert(spec_escape(a) + spec_escape(b) =~= spec_escape(b));
    } else {
        assert((a + b).drop_first() =~= a.drop_first() + b);
        assert((a + b)[0] == a[0]);
        lemma_escape_concat(a.drop_first(), b);
        assert(escape_byte(a[0]) + (spec_escape(a.drop_first()) + spec_escape(b)) =~= (escape_byte(
            a[0],
        ) + spec_escape(a.drop_first())) + spec_escape(b));
    }
}

/// Escaping one more byte appends that byte's escape.
proof fn lemma_escape_take_step(s: Seq<u8>, i: int)
    requires
        0 <= i < s.len(),
    ensures
        spec_escape(s.take(i + 1)) == spec_escape(s.take(i)) + escape_byte(s[i]),
{
    assert(s.take(i + 1) =~= s.take(i) + seq![s[i]]);
    lemma_escape_concat(s.take(i), seq![s[i]]);
    assert(seq![s[i]].drop_first() =~= Seq::<u8>::empty());
    assert(seq![s[i]][0] == s[i]);
    assert(spec_escape(seq![s[i]]) == escape_byte(s[i]) + spec_escape(Seq::<u8>::empty()));
    assert(escape_byte(s[i]) + Seq::<u8>::empty() =~= escape_byte(s[i]));
}

/// Encoding a list with one more credential appends a separator (unless the
/// list was empty) and that credential's encoding.
proof fn lemma_enc_creds_push(l: Seq<CredentialView>, c: CredentialView)
    ensures
        spec_encode_creds(l.push(c)) == if l.len() == 0 {
            spec_encode_credential(c)
        } else {
            spec_encode_creds(l) + seq![0x2Cu8] + spec_encode_credential(c)
        },
    decreases l.len(),
{
    if l.len() == 0 {
        assert(l.push(c)[0] == c);
    } else {
        assert(l.push(c).drop_first() =~= l.drop_first().push(c));
        assert(l.push(c)[0] == l[0]);
        lemma_enc_creds_push(l.drop_first(), c);
        if l.len() == 1 {
            assert(spec_encode_creds(l.push(c)) =~= spec_encode_creds(l) + seq![0x2Cu8]
                + spec_encode_credential(c));
        } else {
            assert(spec_encode_creds(l.push(c)) =~= spec_encode_creds(l) + seq![0x2Cu8]
                + spec_encode_credential(c));
        }
    }
}

/// The content byte of a two-byte escape, given the byte after the backslash.
pub open spec fn unescape_named(e: u8) -> u8
    recommends
        e == 0x22 || e == 0x5C || e == 0x62 || e == 0x74 || e == 0x6E || e == 0x66 || e == 0x72,
{
    if e == 0x22 {
        0x22u8
    } else if e == 0x5C {
        0x5Cu8
    } else if e == 0x62 {
        0x08u8
    } else if e == 0x74 {
        0x09u8
    } else if e == 0x6E {
        0x0Au8
    } else if e == 0x66 {
        0x0Cu8
    } else {
        0x0Du8
    }
}

/// Parses canonical string content after its opening quote: the unescaped
/// content bytes, and what follows the closing quote. Accepts exactly the
/// output of `spec_escape` followed by a quote, and nothing else.
pub open spec fn spec_parse_str_bytes(b: Seq<u8>) -> Option<(Seq<u8>, Seq<u8>)>
    decreases b.len(),
{
    if b.len() == 0 {
        None
    } else if b[0] == 0x22 {
        Some((seq![], b.drop_first()))
    } else if b[0] == 0x5C {
        if b.len() < 2 {
            None
        } else if b[1] == 0x22 || b[1] == 0x5C || b[1] == 0x62 || b[1] == 0x74 || b[1] == 0x6E
            || b[1] == 0x66 || b[1] == 0x72 {
            match spec_parse_str_bytes(b.skip(2)) {
                Some((content, rest)) => Some((seq![unescape_named(b[1])] + content, rest)),
                None => None,
            }
        } else if b[1] == 0x75 {
            if b.len() < 6 {
                None
            } else if b[2] == 0x30 && b[3] == 0x30 && is_hex_lower(b[4]) && is_hex_lower(b[5]) {
                let v = (hex_val(b[4]) * 16 + hex_val(b[5])) as u8;
                if v < 0x20 && v != 0x08 && v != 0x09 && v != 0x0A && v != 0x0C && v != 0x0D {
                    match spec_parse_str_bytes(b.skip(6)) {
                        Some((content, rest)) => Some((seq![v] + content, rest)),
                        None => None,
                    }
                } else {
                    None
                }
            } else {
                None
            }
        } else {
            None
        }
    } else if b[0] >= 0x20 {
        match spec_parse_str_bytes(b.skip(1)) {
            Some((content, rest)) => Some((seq![b[0]] + content, rest)),
            None => None,
        }
    } else {
        None
    }
}

/// Parses a canonical JSON string, quotes included, into its characters and
/// what follows. The content bytes must be valid UTF-8.
pub open spec fn spec_parse_string(b: Seq<u8>) -> Option<(Seq<char>, Seq<u8>)> {
    if b.len() >= 1 && b[0] == 0x22 {
        match spec_parse_str_bytes(b.drop_first()) {
            Some((content, rest)) => {
                if valid_utf8(content) {
                    Some((decode_utf8(content), rest))
                } else {
                    None
                }
            },
            None => None,
        }
    } else {
        None
    }
}

/// Skips an exact literal prefix.
pub open spec fn spec_skip_lit(b: Seq<u8>, lit: Seq<u8>) -> Option<Seq<u8>> {
    if b.len() >= lit.len() && b.take(lit.len() as int) == lit {
        Some(b.skip(lit.len() as int))
    } else {
        None
    }
}

/// Parses one canonical credential object and what follows it.
pub open spec fn spec_parse_credential(b: Seq<u8>) -> Option<(CredentialView, Seq<u8>)> {
    match spec_skip_lit(b, lit_name()) {
        Some(b1) => match spec_parse_string(b1) {
            Some((name, b2)) => match spec_skip_lit(b2, lit_url()) {
                Some(b3) => match spec_parse_string(b3) {
                    Some((url, b4)) => match spec_skip_lit(b4, lit_username()) {
                        Some(b5) => match spec_parse_string(b5) {
                            Some((username, b6)) => match spec_skip_lit(b6, lit_password()) {
                                Some(b7) => match spec_parse_string(b7) {
                                    Some((password, b8)) => {
                                        if b8.len() >= 1 && b8[0] == 0x7D {
                                            Some(
                                                (
                                                    CredentialView {
                                                        name,
                                                        url,
                                                        username,
                                                        password,
                                                    },
                                                    b8.drop_first(),
                                                ),
                                            )
                                        } else {
                                            None
                                        }
                                    },
                                    None => None,
                                },
                                None => None,
                            },
                            None => None,
                        },
                        None => None,
                    },
                    None => None,
                },
                None => None,
            },
            None => None,
        },
        None => None,
    }
}

/// Parses a non-empty, comma-separated credential list and what follows it.
pub open spec fn spec_parse_creds(b: Seq<u8>) -> Option<(Seq<CredentialView>, Seq<u8>)>
    decreases b.len(),
{
    match spec_parse_credential(b) {
        Some((c, b2)) => {
            if b2.len() >= 1 && b2[0] == 0x2C {
                if b2.len() < b.len() {
                    match spec_parse_creds(b2.drop_first()) {
                        Some((l, rest)) => Some((seq![c] + l, rest)),
                        None => None,
                    }
                } else {
                    None
                }
            } else {
                Some((seq![c], b2))
            }
        },
        None => None,
    }
}

/// Parses a whole vault blob: exactly the canonical encoding of some list of
/// credentials, with nothing before or after it.
pub open spec fn spec_decode_vault(b: Seq<u8>) -> Option<Seq<CredentialView>> {
    match spec_skip_lit(b, lit_vault_open()) {
        Some(b1) => {
            if b1 == seq![0x5Du8, 0x7Du8] {
                Some(Seq::empty())
            } else if b1.len() >= 1 && b1[0] != 0x5D {
                match spec_parse_creds(b1) {
                    Some((l, rest)) => {
                        if rest == seq![0x5Du8, 0x7Du8] {
                            Some(l)
                        } else {
                            None
                        }
                    },
                    None => None,
                }
            } else {
                None
            }
        },
        None => None,
    }
}

/// Parsing string content undoes escaping, whatever follows the quote.
proof fn lemma_parse_escaped(x: Seq<u8>, rest: Seq<u8>)
    ensures
        spec_parse_str_bytes(spec_escape(x) + seq![0x22u8] + rest) == Some((x, rest)),
    decreases x.len(),
{
    let input = spec_escape(x) + seq![0x22u8] + rest;
    if x.len() == 0 {
        assert(input =~= seq![0x22u8] + rest);
        assert(input[0] == 0x22);
        assert(input.drop_first() =~= rest);
        assert(x =~= Seq::<u8>::empty());
    } else {
        let b0 = x[0];
        let e = escape_byte(b0);
        let tail_input = spec_escape(x.drop_first()) + seq![0x22u8] + rest;
        assert(input =~= e + tail_input);
        lemma_parse_escaped(x.drop_first(), rest);
        assert(seq![b0] + x.drop_first() =~= x);
        if b0 == 0x22 || b0 == 0x5C || b0 == 0x08 || b0 == 0x09 || b0 == 0x0A || b0 == 0x0C || b0
            == 0x0D {
            assert(input[0] == 0x5C);
            assert(unescape_named(input[1]) == b0);
            assert(input.skip(2) =~= tail_input);
        } else if b0 < 0x20 {
            assert(input[0] == 0x5C && input[1] == 0x75 && input[2] == 0x30 && input[3] == 0x30);
            let hi = b0 as int / 16;
            let lo = b0 as int % 16;
            assert(input[4] == hex_digit_byte(hi) && input[5] == hex_digit_byte(lo));
            assert(is_hex_lower(input[4]) && is_hex_lower(input[5]));
            assert(hex_val(input[4]) == hi && hex_val(input[5]) == lo);
            assert(hex_val(input[4]) * 16 + hex_val(input[5]) == b0 as int);
            assert((hex_val(input[4]) * 16 + hex_val(input[5])) as u8 == b0);
            assert(input.skip(6) =~= tail_input);
        } else {
            assert(input[0] == b0 && b0 >= 0x20 && b0 != 0x22 && b0 != 0x5C);
            assert(input.skip(1) =~= tail_input);
        }
    }
}

/// Parsing a canonical string encoding gives back its characters.
proof fn lemma_parse_string_of_encode(s: Seq<char>, rest: Seq<u8>)
    ensures
        spec_parse_string(spec_encode_string(s) + rest) == Some((s, rest)),
{
    broadcast use vstd::utf8::encode_utf8_valid_utf8, vstd::utf8::encode_utf8_decode_utf8;

    let input = spec_encode_string(s) + rest;
    assert(input[0] == 0x22);
    assert(input.drop_first() =~= spec_escape(encode_utf8(s)) + seq![0x22u8] + rest);
    lemma_parse_escaped(encode_utf8(s), rest);
}

/// Skipping a literal off its own concatenation leaves the remainder.
proof fn lemma_skip_lit(lit: Seq<u8>, rest: Seq<u8>)
    ensures
        spec_skip_lit(lit + rest, lit) == Some(rest),
{
    let b = lit + rest;
    assert(b.take(lit.len() as int) =~= lit);
    assert(b.skip(lit.len() as int) =~= rest);
}

/// The first byte of a credential object's encoding is `{`, and its key
/// literal is not empty.
proof fn lemma_lit_name_head()
    ensures
        lit_name().len() > 0,
        lit_name()[0] == 0x7B,
{
    reveal_strlit("{\"name\":");
    let s = "{\"name\":"@;
    assert(s[0] == '{');
    assert('{' as u32 == 0x7B);
    assert(encode_utf8(s) == vstd::utf8::encode_scalar(s[0] as u32) + encode_utf8(s.drop_first()));
    assert(0x7Bu32 & 0x7F == 0x7B) by (bit_vector);
    assert(vstd::utf8::encode_scalar(0x7B)[0] == 0x7B);
}

/// Parsing a canonical credential encoding gives back that credential.
#[verifier::rlimit(60)]
proof fn lemma_parse_credential_of_encode(c: CredentialView, rest: Seq<u8>)
    ensures
        spec_parse_credential(spec_encode_credential(c) + rest) == Some((c, rest)),
{
    let input = spec_encode_credential(c) + rest;
    let r8 = seq![0x7Du8] + rest;
    let r7 = spec_encode_string(c.password) + r8;
    let r6 = lit_password() + r7;
    let r5 = spec_encode_string(c.username) + r6;
    let r4 = lit_username() + r5;
    let r3 = spec_encode_string(c.url) + r4;
    let r2 = lit_url() + r3;
    let r1 = spec_encode_string(c.name) + r2;
    assert(input =~= lit_name() + r1);
    lemma_skip_lit(lit_name(), r1);
    assert(spec_skip_lit(input, lit_name()) == Some(r1));
    lemma_parse_string_of_encode(c.name, r2);
    assert(spec_parse_string(r1) == Some((c.name, r2)));
    lemma_skip_lit(lit_url(), r3);
    assert(spec_skip_lit(r2, lit_url()) == Some(r3));
    lemma_parse_string_of_encode(c.url, r4);
    assert(spec_parse_string(r3) == Some((c.url, r4)));
    lemma_skip_lit(lit_username(), r5);
    assert(spec_skip_lit(r4, lit_username()) == Some(r5));
    lemma_parse_string_of_encode(c.username, r6);
    assert(spec_parse_string(r5) == Some((c.username, r6)));
    lemma_skip_lit(lit_password(), r7);
    assert(spec_skip_lit(r6, lit_password()) == Some(r7));
    lemma_parse_string_of_encode(c.password, r8);
    assert(spec_parse_string(r7) == Some((c.password, r8)));
    assert(r8[0] == 0x7D);
    assert(r8.drop_first() =~= rest);
    assert(CredentialView {
        name: c.name,
        url: c.url,
        username: c.username,
        password: c.password,
    } == c);
}

/// Parsing a canonical credential-list encoding gives back that list, when
/// what follows does not begin with a separator.
#[verifier::rlimit(60)]
proof fn lemma_parse_creds_of_encode(l: Seq<CredentialView>, rest: Seq<u8>)
    requires
        l.len() >= 1,
        rest.len() >= 1 ==> rest[0] != 0x2C,
    ensures
        spec_parse_creds(spec_encode_creds(l) + rest) == Some((l, rest)),
    decreases l.len(),
{
    let input = spec_encode_creds(l) + rest;
    if l.len() == 1 {
        assert(input =~= spec_encode_credential(l[0]) + rest);
        lemma_parse_credential_of_encode(l[0], rest);
        assert(seq![l[0]] =~= l);
    } else {
        let tail = seq![0x2Cu8] + (spec_encode_creds(l.drop_first()) + rest);
        assert(input =~= spec_encode_credential(l[0]) + tail);
        lemma_parse_credential_of_encode(l[0], tail);
        assert(tail[0] == 0x2C);
        lemma_lit_name_head();
        assert(spec_encode_credential(l[0]).len() > 0);
        assert(tail.len() < input.len());
        assert(tail.drop_first() =~= spec_encode_creds(l.drop_first()) + rest);
        lemma_parse_creds_of_encode(l.drop_first(), rest);
        assert(seq![l[0]] + l.drop_first() =~= l);
    }
}

/// Decoding is a left inverse of encoding: parsing the canonical bytes of any
/// vault yields exactly that vault. With the envelope's own round trip, this
/// is what makes a saved account's vault come back unchanged at login.
pub proof fn lemma_decode_encode_vault(l: Seq<CredentialView>)
    ensures
        spec_decode_vault(spec_encode_vault(l)) == Some(l),
{
    let input = spec_encode_vault(l);
    let trailer = seq![0x5Du8, 0x7Du8];
    let after = spec_encode_creds(l) + trailer;
    assert(input =~= lit_vault_open() + after);
    lemma_skip_lit(lit_vault_open(), after);
    if l.len() == 0 {
        assert(after =~= trailer);
    } else {
        lemma_lit_name_head();
        assert(spec_encode_creds(l)[0] == spec_encode_credential(l[0])[0]);
        assert(spec_encode_credential(l[0])[0] == lit_name()[0]);
        assert(after[0] == 0x7B);
        assert(after != trailer);
        lemma_parse_creds_of_encode(l, trailer);
    }
}

/// The lowercase hexadecimal digit of `v`, as a byte.
fn hex_digit_exec(v: u8) -> (r: u8)
    requires
        v < 16,
    ensures
        r == hex_digit_byte(v as int),
{
    if v < 10 {
        0x30 + v
    } else {
        0x57 + v
    }
}

/// Appends the canonical escaping of `data` to `out`.
fn escape_into(out: &mut Vec<u8>, data: &[u8])
    ensures
        final(out)@ == old(out)@ + spec_escape(data@),
{
    let n: usize = data.len();
    let mut i: usize = 0;
    proof {
        assert(data@.take(0) =~= Seq::<u8>::empty());
        assert(out@ =~= out@ + spec_escape(data@.take(0)));
    }
    while i < n
        invariant
            i <= n,
            n == data@.len(),
            out@ == old(out)@ + spec_escape(data@.take(i as int)),
        decreases n - i,
    {
        let b = data[i];
        if b == 0x22 {
            out.push(0x5C);
            out.push(0x22);
        } else if b == 0x5C {
            out.push(0x5C);
            out.push(0x5C);
        } else if b == 0x08 {
            out.push(0x5C);
            out.push(0x62);
        } else if b == 0x09 {
            out.push(0x5C);
            out.push(0x74);
        } else if b == 0x0A {
            out.push(0x5C);
            out.push(0x6E);
        } else if b == 0x0C {
            out.push(0x5C);
            out.push(0x66);
        } else if b == 0x0D {
            out.push(0x5C);
            out.push(0x72);
        } else if b < 0x20 {
            out.push(0x5C);
            out.push(0x75);
            out.push(0x30);
            out.push(0x30);
            let hi = hex_digit_exec(b / 16);
            let lo = hex_digit_exec(b % 16);
            out.push(hi);
            out.push(lo);
        } else {
            out.push(b);
        }
        proof {
            lemma_escape_take_step(data@, i as int);
            assert(out@ =~= old(out)@ + spec_escape(data@.take(i + 1)));
        }
        i += 1;
    }
    proof {
        assert(data@.take(n as int) =~= data@);
    }
}

/// Appends the canonical JSON string encoding of `s` to `out`.
fn encode_string_into(out: &mut Vec<u8>, s: &str)
    ensures
        final(out)@ == old(out)@ + spec_encode_string(s@),
{
    out.push(0x22);
    escape_into(out, s.as_bytes());
    out.push(0x22);
    proof {
        assert(out@ =~= old(out)@ + spec_encode_string(s@));
    }
}

/// Appends the canonical encoding of one credential to `out`.
fn encode_credential_into(out: &mut Vec<u8>, c: &Credential)
    ensures
        final(out)@ == old(out)@ + spec_encode_credential(c@),
{
    out.extend_from_slice("{\"name\":".as_bytes());
    encode_string_into(out, c.name.as_str());
    out.extend_from_slice(",\"url\":".as_bytes());
    encode_string_into(out, c.url.as_str());
    out.extend_from_slice(",\"username\":".as_bytes());
    encode_string_into(out, c.username.as_str());
    out.extend_from_slice(",\"password\":".as_bytes());
    encode_string_into(out, c.password.as_str());
    out.push(0x7D);
    proof {
        assert(out@ =~= old(out)@ + spec_encode_credential(c@));
    }
}

/// Relies on String::from_utf8: succeeds exactly on valid UTF-8 input and
/// returns the string of those bytes, whose characters are their decoding.
#[verifier::external_body]
fn bytes_to_string(bytes: Vec<u8>) -> (r: Option<String>)
    ensures
        r matches Some(s) ==> valid_utf8(bytes@) && s@ == decode_utf8(bytes@),
        r is None ==> !valid_utf8(bytes@),
{
    match String::from_utf8(bytes) {
        Ok(s) => Some(s),
        Err(_) => None,
    }
}

/// Whether `b` is a lowercase hexadecimal digit byte.
fn is_hex_lower_exec(b: u8) -> (r: bool)
    ensures
        r == is_hex_lower(b),
{
    (0x30 <= b && b <= 0x39) || (0x61 <= b && b <= 0x66)
}

/// The value of a lowercase hexadecimal digit byte.
fn hex_val_exec(b: u8) -> (r: u8)
    requires
        is_hex_lower(b),
    ensures
        r == hex_val(b),
        r < 16,
{
    if b <= 0x39 {
        b - 0x30
    } else {
        b - 0x61 + 10
    }
}

/// The content byte of a two-byte escape, given the byte after the backslash.
fn unescape_named_exec(e: u8) -> (r: u8)
    requires
        e == 0x22 || e == 0x5C || e == 0x62 || e == 0x74 || e == 0x6E || e == 0x66 || e == 0x72,
    ensures
        r == unescape_named(e),
{
    if e == 0x22 {
        0x22
    } else if e == 0x5C {
        0x5C
    } else if e == 0x62 {
        0x08
    } else if e == 0x74 {
        0x09
    } else if e == 0x6E {
        0x0A
    } else if e == 0x66 {
        0x0C
    } else {
        0x0D
    }
}

/// The loop relation of the string-content parser: what remains to parse at
/// `k`, prefixed by the content gathered so far, is what the whole parse from
/// `start` yields.
spec fn str_bytes_step_ok(b: Seq<u8>, start: int, k: int, content: Seq<u8>) -> bool {
    match spec_parse_str_bytes(b.skip(k)) {
        Some((x, r)) => spec_parse_str_bytes(b.skip(start)) == Some::<(Seq<u8>, Seq<u8>)>(
            (content + x, r),
        ),
        None => spec_parse_str_bytes(b.skip(start)) is None,
    }
}

/// One parsed content byte: the parse at `k` is the parse at `k + step` with
/// `v` prepended.
spec fn one_byte_step(b: Seq<u8>, k: int, step: int, v: u8) -> bool {
    spec_parse_str_bytes(b.skip(k)) == (match spec_parse_str_bytes(b.skip(k + step)) {
        Some((x, r)) => Some::<(Seq<u8>, Seq<u8>)>((seq![v] + x, r)),
        None => None::<(Seq<u8>, Seq<u8>)>,
    })
}

/// Carries the loop relation across one parsed content byte.
proof fn lemma_str_step(b: Seq<u8>, start: int, k: int, content: Seq<u8>, v: u8, step: int)
    requires
        str_bytes_step_ok(b, start, k, content),
        one_byte_step(b, k, step, v),
    ensures
        str_bytes_step_ok(b, start, k + step, content.push(v)),
{
    match spec_parse_str_bytes(b.skip(k + step)) {
        Some((x, r)) => {
            assert(content + (seq![v] + x) =~= content.push(v) + x);
        },
        None => {},
    }
}

/// Parses a canonical JSON string starting at byte `i` of `b`, returning the
/// string and the index just past its closing quote; agrees with
/// `spec_parse_string` on the remainder of `b`, succeeding and failing with
/// it.
fn parse_string_at(b: &Vec<u8>, i: usize) -> (r: Option<(String, usize)>)
    requires
        i <= b@.len(),
    ensures
        r matches Some((s, j)) ==> i < j <= b@.len() && spec_parse_string(b@.skip(i as int))
            == Some((s@, b@.skip(j as int))),
        r is None ==> spec_parse_string(b@.skip(i as int)) is None,
{
    let n: usize = b.len();
    if i >= n || b[i] != 0x22 {
        return None;
    }
    proof {
        assert(b@.skip(i as int)[0] == b@[i as int]);
        assert(b@.skip(i as int).drop_first() =~= b@.skip(i + 1));
    }
    let mut content: Vec<u8> = Vec::new();
    let mut k: usize = i + 1;
    proof {
        assert(content@ =~= Seq::<u8>::empty());
        match spec_parse_str_bytes(b@.skip(k as int)) {
            Some((x, r)) => {
                assert(content@ + x =~= x);
            },
            None => {},
        }
    }
    loop
        invariant_except_break
            i < n,
            b@[i as int] == 0x22,
            i + 1 <= k <= n,
            n == b@.len(),
            str_bytes_step_ok(b@, i + 1, k as int, content@),
        ensures
            i + 1 < k <= n,
            n == b@.len(),
            spec_parse_str_bytes(b@.skip(i + 1)) == Some((content@, b@.skip(k as int))),
        decreases n - k,
    {
        if k >= n {
            proof {
                assert(b@.skip(k as int).len() == 0);
                assert(b@.skip(i as int)[0] == b@[i as int]);
                assert(b@.skip(i as int).drop_first() =~= b@.skip(i + 1));
            }
            return None;
        }
        let c = b[k];
        proof {
            assert(b@.skip(k as int)[0] == b@[k as int]);
        }
        if c == 0x22 {
            proof {
                assert(b@.skip(k as int).drop_first() =~= b@.skip(k + 1));
                assert(spec_parse_str_bytes(b@.skip(k as int)) == Some(
                    (Seq::<u8>::empty(), b@.skip(k + 1)),
                ));
                assert(content@ + Seq::<u8>::empty() =~= content@);
            }
            k += 1;
            break ;
        } else if c == 0x5C {
            if n - k < 2 {
                proof {
                    assert(b@.skip(k as int).len() < 2);
                    assert(b@.skip(i as int)[0] == b@[i as int]);
                    assert(b@.skip(i as int).drop_first() =~= b@.skip(i + 1));
                }
                return None;
            }
            let e = b[k + 1];
            proof {
                assert(b@.skip(k as int)[1] == b@[k + 1]);
            }
            if e == 0x22 || e == 0x5C || e == 0x62 || e == 0x74 || e == 0x6E || e == 0x66 || e
                == 0x72 {
                let v = unescape_named_exec(e);
                proof {
                    assert(b@.skip(k as int).skip(2) =~= b@.skip(k + 2));
                    assert(one_byte_step(b@, k as int, 2, v));
                    lemma_str_step(b@, i + 1, k as int, content@, v, 2);
                }
                content.push(v);
                k += 2;
            } else if e == 0x75 {
                if n - k < 6 {
                    proof {
                        assert(b@.skip(k as int).len() < 6);
                        assert(b@.skip(i as int)[0] == b@[i as int]);
                        assert(b@.skip(i as int).drop_first() =~= b@.skip(i + 1));
                    }
                    return None;
                }
                let d2 = b[k + 2];
                let d3 = b[k + 3];
                let d4 = b[k + 4];
                let d5 = b[k + 5];
                proof {
                    assert(b@.skip(k as int)[2] == b@[k + 2]);
                    assert(b@.skip(k as int)[3] == b@[k + 3]);
                    assert(b@.skip(k as int)[4] == b@[k + 4]);
                    assert(b@.skip(k as int)[5] == b@[k + 5]);
                }
                if !(d2 == 0x30 && d3 == 0x30 && is_hex_lower_exec(d4) && is_hex_lower_exec(d5)) {
                    proof {
                        assert(b@.skip(i as int)[0] == b@[i as int]);
                        assert(b@.skip(i as int).drop_first() =~= b@.skip(i + 1));
                    }
                    return None;
                }
                let v = hex_val_exec(d4) * 16 + hex_val_exec(d5);
                if !(v < 0x20 && v != 0x08 && v != 0x09 && v != 0x0A && v != 0x0C && v != 0x0D) {
                    proof {
                        assert(b@.skip(i as int)[0] == b@[i as int]);
                        assert(b@.skip(i as int).drop_first() =~= b@.skip(i + 1));
                    }
                    return None;
                }
                proof {
                    assert(b@.skip(k as int).skip(6) =~= b@.skip(k + 6));
                    assert(one_byte_step(b@, k as int, 6, v));
                    lemma_str_step(b@, i + 1, k as int, content@, v, 6);
                }
                content.push(v);
                k += 6;
            } else {
                proof {
                    assert(b@.skip(i as int)[0] == b@[i as int]);
                    assert(b@.skip(i as int).drop_first() =~= b@.skip(i + 1));
                }
                return None;
            }
        } else if c >= 0x20 {
            proof {
                assert(b@.skip(k as int).skip(1) =~= b@.skip(k + 1));
                assert(one_byte_step(b@, k as int, 1, c));
                lemma_str_step(b@, i + 1, k as int, content@, c, 1);
            }
            content.push(c);
            k += 1;
        } else {
            proof {
                assert(b@.skip(i as int)[0] == b@[i as int]);
                assert(b@.skip(i as int).drop_first() =~= b@.skip(i + 1));
            }
            return None;
        }
    }
    let ghost content_bytes = content@;
    match bytes_to_string(content) {
        Some(s) => Some((s, k)),
        None => {
            proof {
                assert(!valid_utf8(content_bytes));
            }
            None
        },
    }
}

/// Matches an exact literal at byte `i` of `b`, returning the index just past
/// it; agrees with `spec_skip_lit` on the remainder of `b`.
fn expect_lit(b: &Vec<u8>, i: usize, lit: &[u8]) -> (r: Option<usize>)
    requires
        i <= b@.len(),
    ensures
        r matches Some(j) ==> i <= j <= b@.len() && spec_skip_lit(b@.skip(i as int), lit@)
            == Some(b@.skip(j as int)),
        r is None ==> spec_skip_lit(b@.skip(i as int), lit@) is None,
{
    let m: usize = lit.len();
    let n: usize = b.len();
    if n - i < m {
        proof {
            assert(b@.skip(i as int).len() < lit@.len());
        }
        return None;
    }
    let mut t: usize = 0;
    while t < m
        invariant
            t <= m,
            i + m <= n,
            m == lit@.len(),
            n == b@.len(),
            forall|u: int| 0 <= u < t ==> b@[i + u] == lit@[u],
        decreases m - t,
    {
        if b[i + t] != lit[t] {
            proof {
                assert(b@.skip(i as int).take(m as int)[t as int] == b@[i + t]);
                assert(b@.skip(i as int).take(m as int) != lit@);
            }
            return None;
        }
        t += 1;
    }
    proof {
        assert(b@.skip(i as int).take(m as int) =~= lit@);
        assert(b@.skip(i as int).skip(m as int) =~= b@.skip(i + m));
    }
    Some(i + m)
}

/// Parses one credential object starting at byte `i` of `b`, returning it and
/// the index just past its closing brace; agrees with
/// `spec_parse_credential` on the remainder of `b`.
fn parse_credential_at(b: &Vec<u8>, i: usize) -> (r: Option<(Credential, usize)>)
    requires
        i <= b@.len(),
    ensures
        r matches Some((c, j)) ==> i < j <= b@.len() && spec_parse_credential(b@.skip(i as int))
            == Some((c@, b@.skip(j as int))),
        r is None ==> spec_parse_credential(b@.skip(i as int)) is None,
{
    let j1 = match expect_lit(b, i, "{\"name\":".as_bytes()) {
        Some(j) => j,
        None => return None,
    };
    let (name, j2) = match parse_string_at(b, j1) {
        Some(p) => p,
        None => return None,
    };
    let j3 = match expect_lit(b, j2, ",\"url\":".as_bytes()) {
        Some(j) => j,
        None => return None,
    };
    let (url, j4) = match parse_string_at(b, j3) {
        Some(p) => p,
        None => return None,
    };
    let j5 = match expect_lit(b, j4, ",\"username\":".as_bytes()) {
        Some(j) => j,
        None => return None,
    };
    let (username, j6) = match parse_string_at(b, j5) {
        Some(p) => p,
        None => return None,
    };
    let j7 = match expect_lit(b, j6, ",\"password\":".as_bytes()) {
        Some(j) => j,
        None => return None,
    };
    let (password, j8) = match parse_string_at(b, j7) {
        Some(p) => p,
        None => return None,
    };
    if j8 >= b.len() || b[j8] != 0x7D {
        proof {
            if j8 < b@.len() {
                assert(b@.skip(j8 as int)[0] == b@[j8 as int]);
            }
        }
        return None;
    }
    proof {
        assert(b@.skip(j8 as int)[0] == b@[j8 as int]);
        assert(b@.skip(j8 as int).drop_first() =~= b@.skip(j8 + 1));
    }
    Some((Credential { name, url, username, password }, j8 + 1))
}

/// The views of a sequence of credentials, element for element.
spec fn views_of(v: Seq<Credential>) -> Seq<CredentialView> {
    Seq::new(v.len(), |t: int| v[t]@)
}

/// The loop relation of the credential-list parser: what remains to parse at
/// `k`, prefixed by the credentials gathered so far, is what the whole parse
/// from `start` yields.
spec fn creds_step_ok(b: Seq<u8>, start: int, k: int, acc: Seq<CredentialView>) -> bool {
    match spec_parse_creds(b.skip(k)) {
        Some((l, r)) => spec_parse_creds(b.skip(start)) == Some::<(Seq<CredentialView>, Seq<u8>)>(
            (acc + l, r),
        ),
        None => spec_parse_creds(b.skip(start)) is None,
    }
}

/// Deserializes a vault from its canonical persisted bytes. Succeeds exactly
/// where `spec_decode_vault` does — on the canonical encoding of some vault,
/// and on nothing else — and then returns that vault.
#[verifier::rlimit(60)]
pub fn decode_vault(b: &Vec<u8>) -> (r: Option<Credentials>)
    ensures
        r matches Some(c) ==> spec_decode_vault(b@) == Some(c@),
        r is None ==> spec_decode_vault(b@) is None,
{
    let n: usize = b.len();
    proof {
        assert(b@.skip(0) =~= b@);
    }
    let j0 = match expect_lit(b, 0, "{\"credentials\":[".as_bytes()) {
        Some(j) => j,
        None => return None,
    };
    let ghost b1 = b@.skip(j0 as int);
    let ghost trailer = seq![0x5Du8, 0x7Du8];
    proof {
        assert(trailer.len() == 2 && trailer[0] == 0x5D && trailer[1] == 0x7D);
    }
    if j0 < n && b[j0] == 0x5D {
        if n - j0 == 2 && b[j0 + 1] == 0x7D {
            proof {
                assert(b1[0] == b@[j0 as int]);
                assert(b1[1] == b@[j0 + 1]);
                assert(b1 =~= trailer);
            }
            return Some(Credentials::new());
        } else {
            proof {
                assert(b1[0] == b@[j0 as int]);
                if b1.len() == 2 {
                    assert(b1[1] == b@[j0 + 1]);
                }
                assert(b1 != trailer);
            }
            return None;
        }
    }
    if j0 >= n {
        proof {
            assert(b1.len() == 0);
        }
        return None;
    }
    proof {
        assert(b1[0] == b@[j0 as int]);
        assert(b1[0] != 0x5D);
        assert(b1 != trailer);
    }
    let mut creds: Vec<Credential> = Vec::new();
    let mut k: usize = j0;
    proof {
        assert(views_of(creds@) =~= Seq::<CredentialView>::empty());
        match spec_parse_creds(b@.skip(k as int)) {
            Some((l, r)) => {
                assert(views_of(creds@) + l =~= l);
            },
            None => {},
        }
    }
    loop
        invariant_except_break
            j0 <= k <= n,
            n == b@.len(),
            j0 < n,
            b@[j0 as int] != 0x5D,
            spec_skip_lit(b@, lit_vault_open()) == Some(b@.skip(j0 as int)),
            creds_step_ok(b@, j0 as int, k as int, views_of(creds@)),
        ensures
            k <= n,
            n == b@.len(),
            j0 < n,
            b@[j0 as int] != 0x5D,
            spec_skip_lit(b@, lit_vault_open()) == Some(b@.skip(j0 as int)),
            spec_parse_creds(b@.skip(j0 as int)) == Some((views_of(creds@), b@.skip(k as int))),
        decreases n - k,
    {
        let (c, j) = match parse_credential_at(b, k) {
            Some(p) => p,
            None => {
                proof {
                    assert(b@.skip(j0 as int)[0] == b@[j0 as int]);
                    assert(b@.skip(j0 as int) != seq![0x5Du8, 0x7Du8]);
                }
                return None;
            },
        };
        let ghost prev = views_of(creds@);
        creds.push(c);
        proof {
            assert(views_of(creds@) =~= prev.push(c@));
        }
        if j < n && b[j] == 0x2C {
            proof {
                assert(b@.skip(j as int)[0] == b@[j as int]);
                assert(b@.skip(j as int).len() < b@.skip(k as int).len());
                assert(b@.skip(j as int).drop_first() =~= b@.skip(j + 1));
                match spec_parse_creds(b@.skip(j + 1)) {
                    Some((l, r)) => {
                        assert(prev + (seq![c@] + l) =~= prev.push(c@) + l);
                    },
                    None => {},
                }
            }
            k = j + 1;
        } else {
            proof {
                if j < n {
                    assert(b@.skip(j as int)[0] == b@[j as int]);
                } else {
                    assert(b@.skip(j as int).len() == 0);
                }
                assert(spec_parse_creds(b@.skip(k as int)) == Some(
                    (seq![c@], b@.skip(j as int)),
                ));
                assert(prev + seq![c@] =~= prev.push(c@));
            }
            k = j;
            break ;
        }
    }
    if n - k == 2 && b[k] == 0x5D && b[k + 1] == 0x7D {
        proof {
            assert(b@.skip(k as int)[0] == b@[k as int]);
            assert(b@.skip(k as int)[1] == b@[k + 1]);
            assert(b@.skip(k as int) =~= trailer);
        }
        let out = Credentials { credentials: creds };
        proof {
            assert(out@ =~= views_of(out.credentials@));
        }
        Some(out)
    } else {
        proof {
            assert(b@.skip(k as int).len() == n - k);
            if n - k == 2 {
                assert(b@.skip(k as int)[0] == b@[k as int]);
                assert(b@.skip(k as int)[1] == b@[k + 1]);
            }
            assert(b@.skip(k as int) != trailer);
            assert(b@.skip(j0 as int)[0] == b@[j0 as int]);
            assert(b@.skip(j0 as int) != trailer);
        }
        None
    }
}

/// Serializes a vault to its canonical persisted bytes.
pub fn encode_vault(creds: &Credentials) -> (r: Vec<u8>)
    ensures
        r@ == spec_encode_vault(creds@),
{
    let mut out: Vec<u8> = Vec::new();
    out.extend_from_slice("{\"credentials\":[".as_bytes());
    let n: usize = creds.credentials.len();
    proof {
        assert(creds@.take(0) =~= Seq::<CredentialView>::empty());
        assert(out@ =~= lit_vault_open() + spec_encode_creds(creds@.take(0)));
    }
    let mut i: usize = 0;
    while i < n
        invariant
            i <= n,
            n == creds.credentials@.len(),
            creds@.len() == n,
            out@ == lit_vault_open() + spec_encode_creds(creds@.take(i as int)),
        decreases n - i,
    {
        if i > 0 {
            out.push(0x2C);
        }
        encode_credential_into(&mut out, &creds.credentials[i]);
        proof {
            assert(creds@.take(i + 1) =~= creds@.take(i as int).push(creds@[i as int]));
            lemma_enc_creds_push(creds@.take(i as int), creds@[i as int]);
            assert(creds@[i as int] == creds.credentials@[i as int]@);
            assert(out@ =~= lit_vault_open() + spec_encode_creds(creds@.take(i + 1)));
        }
        i += 1;
    }
    out.push(0x5D);
    out.push(0x7D);
    proof {
        assert(creds@.take(n as int) =~= creds@);
        assert(out@ =~= spec_encode_vault(creds@));
    }
    out
}

} // verus!

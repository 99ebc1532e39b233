//! Content-Security-Policy headers with random nonces.

use vstd::prelude::*;

use crate::text;

verus! {

/// The system's random number generator failed.
#[derive(Debug, Clone, Copy, PartialEq, Eq)]
pub struct RngFailure;

// ---------------------------------------------------------------------------
// Base64
// ---------------------------------------------------------------------------

/// The character of a six-bit group in the standard alphabet.
pub open spec fn base64_char(d: int) -> char {
    if d < 26 {
        (65 + d) as char
    } else if d < 52 {
        (97 + (d - 26)) as char
    } else if d < 62 {
        (48 + (d - 52)) as char
    } else if d == 62 {
        '+'
    } else {
        '/'
    }
}

/// Bytes in base64: the standard alphabet, padded with `=`.
pub open spec fn base64_text(bytes: Seq<u8>) -> Seq<char>
    decreases bytes.len(),
{
    if bytes.len() == 0 {
        Seq::empty()
    } else if bytes.len() == 1 {
        seq![
            base64_char(bytes[0] as int / 4),
            base64_char(bytes[0] as int % 4 * 16),
            '=',
            '=',
        ]
    } else if bytes.len() == 2 {
        seq![
            base64_char(bytes[0] as int / 4),
            base64_char(bytes[0] as int % 4 * 16 + bytes[1] as int / 16),
            base64_char(bytes[1] as int % 16 * 4),
            '=',
        ]
    } else {
        seq![
            base64_char(bytes[0] as int / 4),
            base64_char(bytes[0] as int % 4 * 16 + bytes[1] as int / 16),
            base64_char(bytes[1] as int % 16 * 4 + bytes[2] as int / 64),
            base64_char(bytes[2] as int % 64),
        ] + base64_text(bytes.skip(3))
    }
}

/// `base64::engine::general_purpose::STANDARD.encode` writes bytes in base64
/// with the standard alphabet and padding.
#[verifier::external_body]
fn encode_base64(bytes: &[u8]) -> (res: String)
    ensures
        res@ == base64_text(bytes@),
{
    base64::Engine::encode(&base64::engine::general_purpose::STANDARD, bytes)
}

// ---------------------------------------------------------------------------
// Nonces
// ---------------------------------------------------------------------------

/// `ring::rand::SystemRandom` fills a buffer with random bytes, or fails. The
/// bytes are a matter of chance: nothing is claimed of them.
#[verifier::external_body]
fn random_bytes() -> (res: Option<[u8; 32]>) {
    let mut bytes = [0u8; 32];
    let filled = ring::rand::SecureRandom::fill(&ring::rand::SystemRandom::new(), &mut bytes);
    filled.ok().map(|()| bytes)
}

/// The nonce that a run of random bytes gives.
pub fn nonce_from_bytes(bytes: &[u8]) -> (res: String)
    ensures
        res@ == base64_text(bytes@),
{
    encode_base64(bytes)
}

/// `nonce` is the base64 text of 32 bytes.
pub open spec fn is_nonce(nonce: Seq<char>) -> bool {
    exists|bytes: Seq<u8>| bytes.len() == 32 && nonce == #[trigger] base64_text(bytes)
}

/// Generate a cryptographically random CSP nonce (base64, 44 chars).
pub fn generate_csp_nonce() -> (res: Result<String, RngFailure>)
    ensures
        res matches Ok(nonce) ==> is_nonce(nonce@) && nonce@.len() == 44,
{
    let draw = random_bytes();
    proof {
        if let Some(bytes) = draw {
            nonce_is_base64_of_32_bytes(bytes@);
        }
    }
    nonce_from_draw(draw)
}

/// The nonce that a draw of random bytes gives: what [`generate_csp_nonce`] does
/// with its draw, `None` where the generator failed.
pub fn nonce_from_draw(draw: Option<[u8; 32]>) -> (res: Result<String, RngFailure>)
    ensures
        match draw {
            Some(bytes) => res matches Ok(nonce) && nonce@ == base64_text(bytes@),
            None => res == Err::<String, RngFailure>(RngFailure),
        },
{
    match draw {
        Some(bytes) => Ok(nonce_from_bytes(bytes.as_slice())),
        None => Err(RngFailure),
    }
}

// ---------------------------------------------------------------------------
// Header
// ---------------------------------------------------------------------------

/// The policy: nothing by default, scripts and styles by nonce or from the
/// server itself.
pub open spec fn csp_text(nonce: Seq<char>) -> Seq<char> {
    "default-src 'none'; "@ + "script-src 'nonce-"@ + nonce + "' 'self'; "@ + "style-src 'nonce-"@
        + nonce + "' 'self'; "@ + "connect-src 'self'; "@ + "img-src 'self' data:; "@
        + "font-src 'self'; "@ + "frame-ancestors 'none'; "@ + "base-uri 'none'; "@
        + "form-action 'self'"@
}

/// Build a strict Content-Security-Policy header value.
///
/// Allows scripts and styles only via nonce. No inline, no eval.
pub fn build_csp_header(nonce: &str) -> (res: String)
    ensures
        res@ == csp_text(nonce@),
{
    let mut out = String::new();
    out.push_str("default-src 'none'; ");
    out.push_str("script-src 'nonce-");
    out.push_str(nonce);
    out.push_str("' 'self'; ");
    out.push_str("style-src 'nonce-");
    out.push_str(nonce);
    out.push_str("' 'self'; ");
    out.push_str("connect-src 'self'; ");
    out.push_str("img-src 'self' data:; ");
    out.push_str("font-src 'self'; ");
    out.push_str("frame-ancestors 'none'; ");
    out.push_str("base-uri 'none'; ");
    out.push_str("form-action 'self'");
    proof {
        assert(out@ =~= csp_text(nonce@));
    }
    out
}

// ---------------------------------------------------------------------------
// Laws
// ---------------------------------------------------------------------------

/// A character of the base64 alphabet, padding included.
pub open spec fn is_base64_char(c: char) -> bool {
    ||| 'A' <= c <= 'Z'
    ||| 'a' <= c <= 'z'
    ||| '0' <= c <= '9'
    ||| c == '+'
    ||| c == '/'
    ||| c == '='
}

proof fn base64_shape(bytes: Seq<u8>)
    ensures
        base64_text(bytes).len() == (bytes.len() + 2) / 3 * 4,
        forall|i: int|
            0 <= i < base64_text(bytes).len() ==> is_base64_char(#[trigger] base64_text(bytes)[i]),
    decreases bytes.len(),
{
    if bytes.len() > 2 {
        let rest = base64_text(bytes.skip(3));
        base64_shape(bytes.skip(3));
        let head = seq![
            base64_char(bytes[0] as int / 4),
            base64_char(bytes[0] as int % 4 * 16 + bytes[1] as int / 16),
            base64_char(bytes[1] as int % 16 * 4 + bytes[2] as int / 64),
            base64_char(bytes[2] as int % 64),
        ];
        assert(base64_text(bytes) == head + rest);
        assert forall|i: int| 0 <= i < base64_text(bytes).len() implies is_base64_char(
            #[trigger] base64_text(bytes)[i],
        ) by {
            if i >= 4 {
                assert(base64_text(bytes)[i] == rest[i - 4]);
            }
        }
    }
}

/// A nonce is 44 characters of base64.
pub proof fn nonce_is_base64_of_32_bytes(bytes: Seq<u8>)
    requires
        bytes.len() == 32,
    ensures
        base64_text(bytes).len() == 44,
        forall|i: int|
            0 <= i < base64_text(bytes).len() ==> is_base64_char(#[trigger] base64_text(bytes)[i]),
{
    base64_shape(bytes);
}

proof fn base64_char_injective(a: int, b: int)
    requires
        0 <= a < 64,
        0 <= b < 64,
        base64_char(a) == base64_char(b),
    ensures
        a == b,
{
}

proof fn three_bytes_injective(a: u8, b: u8, c: u8, x: u8, y: u8, z: u8)
    requires
        a as int / 4 == x as int / 4,
        a as int % 4 * 16 + b as int / 16 == x as int % 4 * 16 + y as int / 16,
        b as int % 16 * 4 + c as int / 64 == y as int % 16 * 4 + z as int / 64,
        c as int % 64 == z as int % 64,
    ensures
        a == x && b == y && c == z,
{
}

/// No randomness is lost: different bytes give different nonces.
pub proof fn nonces_differ_as_bytes_do(a: Seq<u8>, b: Seq<u8>)
    requires
        a.len() == b.len(),
        base64_text(a) == base64_text(b),
    ensures
        a == b,
    decreases a.len(),
{
    let (x, y) = (base64_text(a), base64_text(b));
    if a.len() == 0 {
        assert(a =~= b);
    } else {
        assert(x[0] == y[0] && x[1] == y[1] && x[2] == y[2] && x[3] == y[3]);
        base64_char_injective(a[0] as int / 4, b[0] as int / 4);
        if a.len() == 1 {
            base64_char_injective(a[0] as int % 4 * 16, b[0] as int % 4 * 16);
            assert(a =~= b);
        } else {
            base64_char_injective(
                a[0] as int % 4 * 16 + a[1] as int / 16,
                b[0] as int % 4 * 16 + b[1] as int / 16,
            );
            if a.len() == 2 {
                base64_char_injective(a[1] as int % 16 * 4, b[1] as int % 16 * 4);
                assert(a =~= b);
            } else {
                base64_char_injective(
                    a[1] as int % 16 * 4 + a[2] as int / 64,
                    b[1] as int % 16 * 4 + b[2] as int / 64,
                );
                base64_char_injective(a[2] as int % 64, b[2] as int % 64);
                three_bytes_injective(a[0], a[1], a[2], b[0], b[1], b[2]);
                assert(base64_text(a.skip(3)) =~= x.skip(4));
                assert(base64_text(b.skip(3)) =~= y.skip(4));
                nonces_differ_as_bytes_do(a.skip(3), b.skip(3));
                assert forall|i: int| 0 <= i < a.len() implies a[i] == b[i] by {
                    if i >= 3 {
                        assert(a[i] == a.skip(3)[i - 3]);
                        assert(b[i] == b.skip(3)[i - 3]);
                    }
                }
                assert(a =~= b);
            }
        }
    }
}

/// No hyphen follows `fe`, and none stands among the first two characters.
spec fn tame(words: Seq<char>) -> bool {
    forall|i: int|
        0 <= i < words.len() && #[trigger] words[i] == '-' ==> i >= 2 && !(words[i - 1] == 'e'
            && words[i - 2] == 'f')
}

proof fn tame_joined(a: Seq<char>, b: Seq<char>)
    requires
        tame(a),
        tame(b),
    ensures
        tame(a + b),
{
    assert forall|i: int| 0 <= i < (a + b).len() && #[trigger] (a + b)[i] == '-' implies i >= 2
        && !((a + b)[i - 1] == 'e' && (a + b)[i - 2] == 'f') by {
        if i < a.len() {
            assert(a[i] == '-');
        } else {
            assert(b[i - a.len()] == '-');
        }
    }
}

proof fn fixed_parts_tame()
    ensures
        tame("default-src 'none'; "@),
        tame("script-src 'nonce-"@),
        tame("' 'self'; "@),
        tame("style-src 'nonce-"@),
        tame("connect-src 'self'; "@),
        tame("img-src 'self' data:; "@),
        tame("font-src 'self'; "@),
        tame("frame-ancestors 'none'; "@),
        tame("base-uri 'none'; "@),
        tame("form-action 'self'"@),
{
    reveal_strlit("default-src 'none'; ");
    reveal_strlit("script-src 'nonce-");
    reveal_strlit("' 'self'; ");
    reveal_strlit("style-src 'nonce-");
    reveal_strlit("connect-src 'self'; ");
    reveal_strlit("img-src 'self' data:; ");
    reveal_strlit("font-src 'self'; ");
    reveal_strlit("frame-ancestors 'none'; ");
    reveal_strlit("base-uri 'none'; ");
    reveal_strlit("form-action 'self'");
}

proof fn csp_tame(nonce: Seq<char>)
    requires
        tame(nonce),
    ensures
        tame(csp_text(nonce)),
{
    fixed_parts_tame();
    let s0 = "default-src 'none'; "@;
    tame_joined(s0, "script-src 'nonce-"@);
    let s1 = s0 + "script-src 'nonce-"@;
    tame_joined(s1, nonce);
    let s2 = s1 + nonce;
    tame_joined(s2, "' 'self'; "@);
    let s3 = s2 + "' 'self'; "@;
    tame_joined(s3, "style-src 'nonce-"@);
    let s4 = s3 + "style-src 'nonce-"@;
    tame_joined(s4, nonce);
    let s5 = s4 + nonce;
    tame_joined(s5, "' 'self'; "@);
    let s6 = s5 + "' 'self'; "@;
    tame_joined(s6, "connect-src 'self'; "@);
    let s7 = s6 + "connect-src 'self'; "@;
    tame_joined(s7, "img-src 'self' data:; "@);
    let s8 = s7 + "img-src 'self' data:; "@;
    tame_joined(s8, "font-src 'self'; "@);
    let s9 = s8 + "font-src 'self'; "@;
    tame_joined(s9, "frame-ancestors 'none'; "@);
    let s10 = s9 + "frame-ancestors 'none'; "@;
    tame_joined(s10, "base-uri 'none'; "@);
    let s11 = s10 + "base-uri 'none'; "@;
    tame_joined(s11, "form-action 'self'"@);
}

proof fn tame_lacks_unsafe(words: Seq<char>, needle: Seq<char>)
    requires
        tame(words),
        needle.len() > 6,
        needle[4] == 'f',
        needle[5] == 'e',
        needle[6] == '-',
    ensures
        !text::has_text(words, needle),
{
    assert forall|at: int| !text::found_at(words, needle, at) by {
        if text::found_at(words, needle, at) {
            let part = words.subrange(at, at + needle.len());
            assert(part[4] == words[at + 4] && part[5] == words[at + 5] && part[6] == words[at + 6]);
        }
    }
}

/// The policy is strict: whatever nonce without a hyphen it is built from, it
/// allows neither inline code nor eval. Every nonce that is generated is free
/// of hyphens.
pub proof fn csp_is_strict(nonce: Seq<char>)
    requires
        forall|i: int| 0 <= i < nonce.len() ==> #[trigger] nonce[i] != '-',
    ensures
        !text::has_text(csp_text(nonce), "unsafe-inline"@),
        !text::has_text(csp_text(nonce), "unsafe-eval"@),
{
    csp_tame(nonce);
    reveal_strlit("unsafe-inline");
    reveal_strlit("unsafe-eval");
    tame_lacks_unsafe(csp_text(nonce), "unsafe-inline"@);
    tame_lacks_unsafe(csp_text(nonce), "unsafe-eval"@);
}

/// A generated nonce has no hyphen, so that the policy built from it is strict.
pub proof fn generated_nonce_has_no_hyphen(nonce: Seq<char>)
    requires
        is_nonce(nonce),
    ensures
        forall|i: int| 0 <= i < nonce.len() ==> #[trigger] nonce[i] != '-',
{
    let bytes = choose|bytes: Seq<u8>| bytes.len() == 32 && nonce == #[trigger] base64_text(bytes);
    base64_shape(bytes);
    assert forall|i: int| 0 <= i < nonce.len() implies #[trigger] nonce[i] != '-' by {
        assert(is_base64_char(base64_text(bytes)[i]));
    }
}

/// The policy allows nothing by default, and lets scripts and styles in by the
/// nonce.
pub proof fn csp_holds_nonce(nonce: Seq<char>)
    ensures
        text::has_text(csp_text(nonce), "default-src 'none'"@),
        text::has_text(csp_text(nonce), "script-src 'nonce-"@ + nonce + "'"@),
        text::has_text(csp_text(nonce), "style-src 'nonce-"@ + nonce + "'"@),
{
    reveal_strlit("default-src 'none'; ");
    reveal_strlit("script-src 'nonce-");
    reveal_strlit("' 'self'; ");
    reveal_strlit("style-src 'nonce-");
    reveal_strlit("connect-src 'self'; ");
    reveal_strlit("img-src 'self' data:; ");
    reveal_strlit("font-src 'self'; ");
    reveal_strlit("frame-ancestors 'none'; ");
    reveal_strlit("base-uri 'none'; ");
    reveal_strlit("form-action 'self'");
    reveal_strlit("default-src 'none'");
    reveal_strlit("'");
    let csp = csp_text(nonce);
    let first = "default-src 'none'"@;
    assert(csp.subrange(0, first.len() as int) =~= first);
    assert(text::found_at(csp, first, 0));
    let script = "script-src 'nonce-"@ + nonce + "'"@;
    let a = "default-src 'none'; "@.len() as int;
    assert(csp.subrange(a, a + script.len()) =~= script);
    assert(text::found_at(csp, script, a));
    let style = "style-src 'nonce-"@ + nonce + "'"@;
    let b = a + "script-src 'nonce-"@.len() + nonce.len() + "' 'self'; "@.len();
    assert(csp.subrange(b, b + style.len()) =~= style);
    assert(text::found_at(csp, style, b));
}

/// The whole policy, given by the nonce.
pub proof fn policy_in_full(nonce: Seq<char>)
    ensures
        csp_text(nonce) == "default-src 'none'; script-src 'nonce-"@ + nonce
            + "' 'self'; style-src 'nonce-"@ + nonce
            + "' 'self'; connect-src 'self'; img-src 'self' data:; font-src 'self'; frame-ancestors 'none'; base-uri 'none'; form-action 'self'"@,
{
    reveal_strlit("default-src 'none'; ");
    reveal_strlit("script-src 'nonce-");
    reveal_strlit("' 'self'; ");
    reveal_strlit("style-src 'nonce-");
    reveal_strlit("connect-src 'self'; ");
    reveal_strlit("img-src 'self' data:; ");
    reveal_strlit("font-src 'self'; ");
    reveal_strlit("frame-ancestors 'none'; ");
    reveal_strlit("base-uri 'none'; ");
    reveal_strlit("form-action 'self'");
    reveal_strlit("default-src 'none'; script-src 'nonce-");
    reveal_strlit("' 'self'; style-src 'nonce-");
    reveal_strlit(
        "' 'self'; connect-src 'self'; img-src 'self' data:; font-src 'self'; frame-ancestors 'none'; base-uri 'none'; form-action 'self'",
    );
    let first = "default-src 'none'; script-src 'nonce-"@;
    assert("default-src 'none'; "@ + "script-src 'nonce-"@ =~= first);
    let second = "' 'self'; style-src 'nonce-"@;
    assert("' 'self'; "@ + "style-src 'nonce-"@ =~= second);
    let a = "connect-src 'self'; "@ + "img-src 'self' data:; "@;
    let b = "font-src 'self'; "@ + "frame-ancestors 'none'; "@;
    let c = "base-uri 'none'; "@ + "form-action 'self'"@;
    let third =
        "' 'self'; connect-src 'self'; img-src 'self' data:; font-src 'self'; frame-ancestors 'none'; base-uri 'none'; form-action 'self'"@;
    assert("' 'self'; "@ + a + b + c =~= third);
    assert(csp_text(nonce) =~= first + nonce + second + nonce + ("' 'self'; "@ + a + b + c));
}

/// The six-bit group that a character of the alphabet stands for.
pub open spec fn sextet(c: char) -> int {
    if 'A' <= c <= 'Z' {
        c as int - 'A' as int
    } else if 'a' <= c <= 'z' {
        c as int - 'a' as int + 26
    } else if '0' <= c <= '9' {
        c as int - '0' as int + 52
    } else if c == '+' {
        62
    } else {
        63
    }
}

proof fn sextets_are_read_back(d: int)
    requires
        0 <= d < 64,
    ensures
        sextet(base64_char(d)) == d,
        base64_char(d) != '=',
        base64_char(d) == '/' <==> d == 63,
{
}

/// Three bytes are four characters: read as numbers, both are the same. The text of
/// what follows stands behind them; two bytes at the end are padded by one character,
/// one byte by two.
pub proof fn base64_reads_back(bytes: Seq<u8>)
    ensures
        bytes.len() == 0 ==> base64_text(bytes).len() == 0,
        bytes.len() >= 3 ==> base64_text(bytes).len() >= 4 && sextet(base64_text(bytes)[0])
            * 0x4_0000 + sextet(base64_text(bytes)[1]) * 0x1000 + sextet(base64_text(bytes)[2])
            * 0x40 + sextet(base64_text(bytes)[3]) == bytes[0] * 0x1_0000 + bytes[1] * 0x100
            + bytes[2] && base64_text(bytes).skip(4) == base64_text(bytes.skip(3)),
        bytes.len() == 2 ==> base64_text(bytes).len() == 4 && sextet(base64_text(bytes)[0]) * 0x1000
            + sextet(base64_text(bytes)[1]) * 0x40 + sextet(base64_text(bytes)[2]) == (bytes[0]
            * 0x100 + bytes[1]) * 4 && base64_text(bytes)[3] == '=',
        bytes.len() == 1 ==> base64_text(bytes).len() == 4 && sextet(base64_text(bytes)[0]) * 0x40
            + sextet(base64_text(bytes)[1]) == bytes[0] * 0x10 && base64_text(bytes)[2] == '='
            && base64_text(bytes)[3] == '=',
{
    if bytes.len() > 0 {
        let a = bytes[0] as int;
        sextets_are_read_back(a / 4);
        if bytes.len() == 1 {
            sextets_are_read_back(a % 4 * 16);
        } else {
            let b = bytes[1] as int;
            sextets_are_read_back(a % 4 * 16 + b / 16);
            if bytes.len() == 2 {
                sextets_are_read_back(b % 16 * 4);
            } else {
                let c = bytes[2] as int;
                sextets_are_read_back(b % 16 * 4 + c / 64);
                sextets_are_read_back(c % 64);
                assert(base64_text(bytes).skip(4) =~= base64_text(bytes.skip(3)));
            }
        }
    }
}

} // verus!

//! The status-line and `content-length` encoders.
//!
//! Both append a fixed-grammar run of ASCII bytes to the output buffer:
//! the status line's `"HTTP/<ver> <ddd> "` segment, and the full
//! `"\r\ncontent-length: <decimal>\r\n"` header. The `content-length`
//! encoder picks a fixed-width digit emission by magnitude tier and falls
//! back to the general emitter for values of a million and above.

use vstd::prelude::*;

use crate::buffer::bytes_view;
use crate::buffer::put_slice;
use crate::buffer::put_u8;
use crate::digits::DIGITS_START;
use crate::digits::dec_digits;
use crate::digits::digit_byte;
use crate::digits::write_usize;

verus! {

/// The closed set of HTTP versions whose status lines take this fast path.
/// `Other` stands for every further version: the encoder appends no version
/// token for it, leaving `"HTTP/<ddd> "` — callers keep such versions on
/// other framing paths.
#[derive(Clone, Copy, Debug, PartialEq, Eq)]
pub enum Version {
    Http09,
    Http10,
    Http11,
    Other,
}

/// `"HTTP/"` as ASCII bytes.
pub open spec fn spec_http_prefix() -> Seq<u8> {
    seq![72u8, 84u8, 84u8, 80u8, 47u8]
}

/// The version token and its trailing space (`"1.1 "`, `"1.0 "`, `"0.9 "`);
/// empty for an unrecognized version.
pub open spec fn spec_version_token(v: Version) -> Seq<u8> {
    match v {
        Version::Http09 => seq![48u8, 46u8, 57u8, 32u8],
        Version::Http10 => seq![49u8, 46u8, 48u8, 32u8],
        Version::Http11 => seq![49u8, 46u8, 49u8, 32u8],
        Version::Other => seq![],
    }
}

/// The zero-padded three-digit decimal of a status code (exact for
/// `code <= 999`, which callers guarantee).
pub open spec fn spec_three_digits(code: u16) -> Seq<u8> {
    seq![
        digit_byte((code / 100) as nat),
        digit_byte(((code / 10) % 10) as nat),
        digit_byte((code % 10) as nat),
    ]
}

/// Everything `write_status_line` appends: `"HTTP/<ver> <ddd> "`.
pub open spec fn spec_status_line(v: Version, code: u16) -> Seq<u8> {
    spec_http_prefix() + spec_version_token(v) + spec_three_digits(code) + seq![32u8]
}

/// `"\r\ncontent-length: "` as ASCII bytes.
pub open spec fn spec_content_length_prefix() -> Seq<u8> {
    seq![
        13u8,
        10u8,
        99u8,
        111u8,
        110u8,
        116u8,
        101u8,
        110u8,
        116u8,
        45u8,
        108u8,
        101u8,
        110u8,
        103u8,
        116u8,
        104u8,
        58u8,
        32u8,
    ]
}

/// Everything `write_content_length` appends:
/// `"\r\ncontent-length: <decimal digits>\r\n"`.
pub open spec fn spec_content_length(n: nat) -> Seq<u8> {
    spec_content_length_prefix() + dec_digits(n) + seq![13u8, 10u8]
}

/// Appends `"HTTP/<ver> <3-digit code> "` to the buffer.
///
/// Callers guarantee a code of at most three digits; the version segment is
/// silently omitted for an unrecognized version (see [`Version`]).
pub fn write_status_line(version: Version, n: u16, bytes: &mut bytes::BytesMut)
    requires
        n <= 999,
        bytes_view(*old(bytes)).len() + 13 <= usize::MAX,
    ensures
        bytes_view(*final(bytes)) == bytes_view(*old(bytes)) + spec_status_line(version, n),
{
    let ghost base = bytes_view(*old(bytes));

    // "HTTP/"
    let http: [u8; 5] = [72, 84, 84, 80, 47];
    put_slice(bytes, http.as_slice());
    proof {
        assert(http@ =~= spec_http_prefix());
    }

    match version {
        Version::Http11 => {
            // "1.1 "
            let tok: [u8; 4] = [49, 46, 49, 32];
            put_slice(bytes, tok.as_slice());
            proof {
                assert(tok@ =~= spec_version_token(version));
            }
        },
        Version::Http10 => {
            // "1.0 "
            let tok: [u8; 4] = [49, 46, 48, 32];
            put_slice(bytes, tok.as_slice());
            proof {
                assert(tok@ =~= spec_version_token(version));
            }
        },
        Version::Http09 => {
            // "0.9 "
            let tok: [u8; 4] = [48, 46, 57, 32];
            put_slice(bytes, tok.as_slice());
            proof {
                assert(tok@ =~= spec_version_token(version));
            }
        },
        Version::Other => {
            // other HTTP version handlers do not use this path
        },
    }

    proof {
        assert(bytes_view(*bytes) =~= base + spec_http_prefix() + spec_version_token(version));
    }

    let d100: u8 = (n / 100) as u8;
    let d10: u8 = ((n / 10) % 10) as u8;
    let d1: u8 = (n % 10) as u8;

    put_u8(bytes, DIGITS_START + d100);
    put_u8(bytes, DIGITS_START + d10);
    put_u8(bytes, DIGITS_START + d1);

    // trailing space before the reason phrase
    put_u8(bytes, 32);

    proof {
        assert(bytes_view(*bytes) =~= base + spec_status_line(version, n));
    }
}

proof fn lemma_dec_2(n: nat)
    requires
        10 <= n < 100,
    ensures
        dec_digits(n) == seq![digit_byte(n / 10), digit_byte(n % 10)],
{
    reveal_with_fuel(dec_digits, 3);
    assert(dec_digits(n) =~= seq![digit_byte(n / 10), digit_byte(n % 10)]);
}

proof fn lemma_dec_3(n: nat)
    requires
        100 <= n < 1000,
    ensures
        dec_digits(n) == seq![
            digit_byte(n / 100),
            digit_byte((n / 10) % 10),
            digit_byte(n % 10),
        ],
{
    vstd::arithmetic::div_mod::lemma_div_denominator(n as int, 10, 10);
    lemma_dec_2(n / 10);
    assert(dec_digits(n) =~= seq![
        digit_byte(n / 100),
        digit_byte((n / 10) % 10),
        digit_byte(n % 10),
    ]);
}

proof fn lemma_dec_4(n: nat)
    requires
        1000 <= n < 10000,
    ensures
        dec_digits(n) == seq![
            digit_byte(n / 1000),
            digit_byte((n / 100) % 10),
            digit_byte((n / 10) % 10),
            digit_byte(n % 10),
        ],
{
    vstd::arithmetic::div_mod::lemma_div_denominator(n as int, 10, 10);
    vstd::arithmetic::div_mod::lemma_div_denominator(n as int, 10, 100);
    lemma_dec_3(n / 10);
    assert(dec_digits(n) =~= seq![
        digit_byte(n / 1000),
        digit_byte((n / 100) % 10),
        digit_byte((n / 10) % 10),
        digit_byte(n % 10),
    ]);
}

proof fn lemma_dec_5(n: nat)
    requires
        10000 <= n < 100000,
    ensures
        dec_digits(n) == seq![
            digit_byte(n / 10000),
            digit_byte((n / 1000) % 10),
            digit_byte((n / 100) % 10),
            digit_byte((n / 10) % 10),
            digit_byte(n % 10),
        ],
{
    vstd::arithmetic::div_mod::lemma_div_denominator(n as int, 10, 10);
    vstd::arithmetic::div_mod::lemma_div_denominator(n as int, 10, 100);
    vstd::arithmetic::div_mod::lemma_div_denominator(n as int, 10, 1000);
    lemma_dec_4(n / 10);
    assert(dec_digits(n) =~= seq![
        digit_byte(n / 10000),
        digit_byte((n / 1000) % 10),
        digit_byte((n / 100) % 10),
        digit_byte((n / 10) % 10),
        digit_byte(n % 10),
    ]);
}

proof fn lemma_dec_6(n: nat)
    requires
        100000 <= n < 1000000,
    ensures
        dec_digits(n) == seq![
            digit_byte(n / 100000),
            digit_byte((n / 10000) % 10),
            digit_byte((n / 1000) % 10),
            digit_byte((n / 100) % 10),
            digit_byte((n / 10) % 10),
            digit_byte(n % 10),
        ],
{
    vstd::arithmetic::div_mod::lemma_div_denominator(n as int, 10, 10);
    vstd::arithmetic::div_mod::lemma_div_denominator(n as int, 10, 100);
    vstd::arithmetic::div_mod::lemma_div_denominator(n as int, 10, 1000);
    vstd::arithmetic::div_mod::lemma_div_denominator(n as int, 10, 10000);
    lemma_dec_5(n / 10);
    assert(dec_digits(n) =~= seq![
        digit_byte(n / 100000),
        digit_byte((n / 10000) % 10),
        digit_byte((n / 1000) % 10),
        digit_byte((n / 100) % 10),
        digit_byte((n / 10) % 10),
        digit_byte(n % 10),
    ]);
}

/// Appends `"\r\ncontent-length: <decimal of n>\r\n"` to the buffer.
///
/// The decimal is canonical: most significant digit first, no leading zeros.
/// Values below a million take a fixed-width tier; larger values go through
/// the general emitter. The buffer has to have room for the longest header
/// this can emit.
pub fn write_content_length(n: usize, bytes: &mut bytes::BytesMut)
    requires
        bytes_view(*old(bytes)).len() + 40 <= usize::MAX,
    ensures
        bytes_view(*final(bytes)) == bytes_view(*old(bytes)) + spec_content_length(n as nat),
{
    let ghost base = bytes_view(*old(bytes));

    // "\r\ncontent-length: "
    let prefix: [u8; 18] = [13, 10, 99, 111, 110, 116, 101, 110, 116, 45, 108, 101, 110, 103, 116, 104, 58, 32];
    put_slice(bytes, prefix.as_slice());
    proof {
        assert(prefix@ =~= spec_content_length_prefix());
    }
    let ghost with_prefix = base + spec_content_length_prefix();

    if n < 10 {
        put_u8(bytes, DIGITS_START + (n as u8));
    } else if n < 100 {
        let m = n as u8;

        let d10 = m / 10;
        let d1 = m % 10;

        put_u8(bytes, DIGITS_START + d10);
        put_u8(bytes, DIGITS_START + d1);

        proof {
            lemma_dec_2(n as nat);
        }
    } else if n < 1000 {
        let m = n as u16;

        let d100 = (m / 100) as u8;
        let d10 = ((m / 10) % 10) as u8;
        let d1 = (m % 10) as u8;

        put_u8(bytes, DIGITS_START + d100);
        put_u8(bytes, DIGITS_START + d10);
        put_u8(bytes, DIGITS_START + d1);

        proof {
            lemma_dec_3(n as nat);
        }
    } else if n < 10_000 {
        let m = n as u16;

        let d1000 = (m / 1000) as u8;
        let d100 = ((m / 100) % 10) as u8;
        let d10 = ((m / 10) % 10) as u8;
        let d1 = (m % 10) as u8;

        put_u8(bytes, DIGITS_START + d1000);
        put_u8(bytes, DIGITS_START + d100);
        put_u8(bytes, DIGITS_START + d10);
        put_u8(bytes, DIGITS_START + d1);

        proof {
            lemma_dec_4(n as nat);
        }
    } else if n < 100_000 {
        let m = n as u32;

        let d10000 = (m / 10000) as u8;
        let d1000 = ((m / 1000) % 10) as u8;
        let d100 = ((m / 100) % 10) as u8;
        let d10 = ((m / 10) % 10) as u8;
        let d1 = (m % 10) as u8;

        put_u8(bytes, DIGITS_START + d10000);
        put_u8(bytes, DIGITS_START + d1000);
        put_u8(bytes, DIGITS_START + d100);
        put_u8(bytes, DIGITS_START + d10);
        put_u8(bytes, DIGITS_START + d1);

        proof {
            lemma_dec_5(n as nat);
        }
    } else if n < 1_000_000 {
        let m = n as u32;

        let d100000 = (m / 100_000) as u8;
        let d10000 = ((m / 10000) % 10) as u8;
        let d1000 = ((m / 1000) % 10) as u8;
        let d100 = ((m / 100) % 10) as u8;
        let d10 = ((m / 10) % 10) as u8;
        let d1 = (m % 10) as u8;

        put_u8(bytes, DIGITS_START + d100000);
        put_u8(bytes, DIGITS_START + d10000);
        put_u8(bytes, DIGITS_START + d1000);
        put_u8(bytes, DIGITS_START + d100);
        put_u8(bytes, DIGITS_START + d10);
        put_u8(bytes, DIGITS_START + d1);

        proof {
            lemma_dec_6(n as nat);
        }
    } else {
        write_usize(n, bytes);
    }

    proof {
        crate::digits::lemma_dec_digits_fits(n as nat);
        assert(bytes_view(*bytes) =~= with_prefix + dec_digits(n as nat));
    }

    // "\r\n"
    let crlf: [u8; 2] = [13, 10];
    put_slice(bytes, crlf.as_slice());

    proof {
        assert(bytes_view(*bytes) =~= base + spec_content_length(n as nat));
    }
}

/// Both encoders are deterministic: what they append depends only on their
/// inputs, so two calls with the same inputs into two independently prepared
/// buffers append byte-identical suffixes, whatever each buffer held before.
pub proof fn lemma_encoders_deterministic(
    v: Version,
    code: u16,
    n: nat,
    pre1: Seq<u8>,
    pre2: Seq<u8>,
)
    ensures
        (pre1 + spec_status_line(v, code)).skip(pre1.len() as int) == (pre2 + spec_status_line(
            v,
            code,
        )).skip(pre2.len() as int),
        (pre1 + spec_content_length(n)).skip(pre1.len() as int) == (pre2 + spec_content_length(
            n,
        )).skip(pre2.len() as int),
{
    assert((pre1 + spec_status_line(v, code)).skip(pre1.len() as int) =~= spec_status_line(
        v,
        code,
    ));
    assert((pre2 + spec_status_line(v, code)).skip(pre2.len() as int) =~= spec_status_line(
        v,
        code,
    ));
    assert((pre1 + spec_content_length(n)).skip(pre1.len() as int) =~= spec_content_length(n));
    assert((pre2 + spec_content_length(n)).skip(pre2.len() as int) =~= spec_content_length(n));
}

} // verus!

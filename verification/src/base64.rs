//! Base64 with padding, as HTTP basic authentication uses it.
use vstd::prelude::*;
use vstd::string::*;
use vstd::utf8::*;

verus! {

/// The character that stands for the sextet `v`: `A..Z`, `a..z`, `0..9`, `+`, `/`.
pub open spec fn sextet_char(v: int) -> char {
    if v < 26 {
        (v + 65) as char
    } else if v < 52 {
        (v + 71) as char
    } else if v < 62 {
        (v - 4) as char
    } else if v == 62 {
        '+'
    } else {
        '/'
    }
}

/// The number that three bytes make, the first the most significant.
pub open spec fn triple(b0: u8, b1: u8, b2: u8) -> int {
    b0 * 65536 + b1 * 256 + b2
}

/// The sextet of `v` with weight `64^k`.
pub open spec fn sextet(v: int, k: nat) -> int {
    if k == 0 {
        v % 64
    } else if k == 1 {
        v / 64 % 64
    } else if k == 2 {
        v / 4096 % 64
    } else {
        v / 262144 % 64
    }
}

/// The Base64 text of a run of bytes: four characters for each three bytes, where `=` stands
/// for each byte that the last group lacks.
pub open spec fn base64(b: Seq<u8>) -> Seq<char>
    decreases b.len(),
{
    if b.len() == 0 {
        Seq::empty()
    } else {
        let v = triple(
            b[0],
            if b.len() > 1 {
                b[1]
            } else {
                0
            },
            if b.len() > 2 {
                b[2]
            } else {
                0
            },
        );
        let group = seq![
            sextet_char(sextet(v, 3)),
            sextet_char(sextet(v, 2)),
            if b.len() > 1 {
                sextet_char(sextet(v, 1))
            } else {
                '='
            },
            if b.len() > 2 {
                sextet_char(sextet(v, 0))
            } else {
                '='
            },
        ];
        if b.len() <= 3 {
            group
        } else {
            group + base64(b.skip(3))
        }
    }
}

/// The sextet for which a character stands.
pub open spec fn char_sextet(c: char) -> int {
    if 'A' <= c <= 'Z' {
        c as int - 65
    } else if 'a' <= c <= 'z' {
        c as int - 71
    } else if '0' <= c <= '9' {
        c as int + 4
    } else if c == '+' {
        62
    } else {
        63
    }
}

/// The bytes for which a Base64 text stands.
pub open spec fn base64_bytes(s: Seq<char>) -> Seq<u8>
    decreases s.len(),
{
    if s.len() < 4 {
        Seq::empty()
    } else {
        let v = char_sextet(s[0]) * 262144 + char_sextet(s[1]) * 4096 + (if s[2] == '=' {
            0
        } else {
            char_sextet(s[2]) * 64
        }) + (if s[3] == '=' {
            0
        } else {
            char_sextet(s[3])
        });
        let b0 = (v / 65536) as u8;
        let b1 = (v / 256 % 256) as u8;
        let b2 = (v % 256) as u8;
        if s[2] == '=' {
            seq![b0]
        } else if s[3] == '=' {
            seq![b0, b1]
        } else {
            seq![b0, b1, b2] + base64_bytes(s.skip(4))
        }
    }
}

/// The character that stands for a sextet.
fn sextet_to_char(v: u32) -> (r: char)
    requires
        v < 64,
    ensures
        r == sextet_char(v as int),
{
    let b: u8 = v as u8;
    if b < 26 {
        (b + 65) as char
    } else if b < 52 {
        (b + 71) as char
    } else if b < 62 {
        (b - 4) as char
    } else if b == 62 {
        '+'
    } else {
        '/'
    }
}

/// The Base64 text of the UTF-8 bytes of `input`.
pub fn base64_encode(input: &str) -> (r: String)
    ensures
        r@ == base64(encode_utf8(input@)),
{
    let bytes = input.as_bytes();
    let n: usize = bytes.len();
    let mut result = String::new();
    let mut i: usize = 0;
    assert(bytes@.skip(0) =~= bytes@);
    assert(result@ + base64(bytes@) =~= base64(bytes@));
    while i < n
        invariant
            i <= n == bytes@.len(),
            result@ + base64(bytes@.skip(i as int)) == base64(bytes@),
        decreases n - i,
    {
        let ghost rest = bytes@.skip(i as int);
        let ghost before = result@;
        let b0: u8 = bytes[i];
        let has1: bool = n - i > 1;
        let has2: bool = n - i > 2;
        let b1: u8 = if has1 {
            bytes[i + 1]
        } else {
            0
        };
        let b2: u8 = if has2 {
            bytes[i + 2]
        } else {
            0
        };
        let val: u32 = ((b0 as u32) << 16) | ((b1 as u32) << 8) | (b2 as u32);
        let s3: u32 = (val >> 18) & 0x3F;
        let s2: u32 = (val >> 12) & 0x3F;
        let s1: u32 = (val >> 6) & 0x3F;
        let s0: u32 = val & 0x3F;
        assert(val == (b0 as u32) * 65536 + (b1 as u32) * 256 + (b2 as u32)) by (bit_vector)
            requires
                val == ((b0 as u32) << 16) | ((b1 as u32) << 8) | (b2 as u32),
        ;
        assert(s3 == val / 262144 % 64 && s2 == val / 4096 % 64 && s1 == val / 64 % 64 && s0 == val
            % 64) by (bit_vector)
            requires
                s3 == (val >> 18) & 0x3F,
                s2 == (val >> 12) & 0x3F,
                s1 == (val >> 6) & 0x3F,
                s0 == val & 0x3F,
        ;
        result.push(sextet_to_char(s3));
        result.push(sextet_to_char(s2));
        result.push(
            if has1 {
                sextet_to_char(s1)
            } else {
                '='
            },
        );
        result.push(
            if has2 {
                sextet_to_char(s0)
            } else {
                '='
            },
        );
        proof {
            assert(val as int == triple(b0, b1, b2));
            let group = result@.skip(before.len() as int);
            assert(result@ =~= before + group);
            if rest.len() <= 3 {
                assert(base64(rest) =~= group);
            } else {
                assert(base64(rest) =~= group + base64(rest.skip(3)));
                assert(rest.skip(3) =~= bytes@.skip(i + 3));
                assert(before + (group + base64(rest.skip(3))) =~= result@ + base64(
                    bytes@.skip(i + 3),
                ));
            }
        }
        if n - i <= 3 {
            assert(bytes@.skip(n as int) =~= Seq::<u8>::empty());
            assert(result@ + base64(bytes@.skip(n as int)) =~= result@);
            i = n;
        } else {
            i += 3;
        }
    }
    assert(bytes@.skip(n as int) =~= Seq::<u8>::empty());
    assert(result@ + Seq::<char>::empty() =~= result@);
    result
}

/// A character of the alphabet stands for the sextet it was made from, and is not the padding.
proof fn sextet_char_inverse(v: int)
    requires
        0 <= v < 64,
    ensures
        char_sextet(sextet_char(v)) == v,
        sextet_char(v) != '=',
{
}

/// A number below `2^24` is put together from its four sextets and from its three bytes.
proof fn triple_parts(b0: u8, b1: u8, b2: u8)
    ensures
        ({
            let v = triple(b0, b1, b2);
            &&& sextet(v, 3) * 262144 + sextet(v, 2) * 4096 + sextet(v, 1) * 64 + sextet(v, 0) == v
            &&& 0 <= sextet(v, 0) < 64 && 0 <= sextet(v, 1) < 64
            &&& 0 <= sextet(v, 2) < 64 && 0 <= sextet(v, 3) < 64
            &&& v / 65536 == b0
            &&& v / 256 % 256 == b1
            &&& v % 256 == b2
            &&& b2 == 0 ==> sextet(v, 0) == 0
            &&& b1 == 0 && b2 == 0 ==> sextet(v, 1) == 0
        }),
{
    let v: u32 = triple(b0, b1, b2) as u32;
    assert(v == b0 * 65536 + b1 * 256 + b2);
    assert((v / 262144 % 64) * 262144 + (v / 4096 % 64) * 4096 + (v / 64 % 64) * 64 + v % 64 == v
        && v / 65536 == b0 && v / 256 % 256 == b1 && v % 256 == b2) by (bit_vector)
        requires
            v == b0 * 65536 + b1 * 256 + b2,
    ;
    assert((b2 == 0 ==> v % 64 == 0) && (b1 == 0 && b2 == 0 ==> v / 64 % 64 == 0)) by (bit_vector)
        requires
            v == b0 * 65536 + b1 * 256 + b2,
    ;
}

/// Decoding undoes encoding: the Base64 text of a run of bytes stands for those bytes.
pub proof fn base64_round_trip(b: Seq<u8>)
    ensures
        base64_bytes(base64(b)) == b,
    decreases b.len(),
{
    if b.len() > 0 {
        let b1 = if b.len() > 1 {
            b[1]
        } else {
            0
        };
        let b2 = if b.len() > 2 {
            b[2]
        } else {
            0
        };
        let v = triple(b[0], b1, b2);
        triple_parts(b[0], b1, b2);
        sextet_char_inverse(sextet(v, 0));
        sextet_char_inverse(sextet(v, 1));
        sextet_char_inverse(sextet(v, 2));
        sextet_char_inverse(sextet(v, 3));
        let s = base64(b);
        if b.len() > 3 {
            base64_round_trip(b.skip(3));
            assert(s.skip(4) =~= base64(b.skip(3)));
            assert(b =~= seq![b[0], b1, b2] + b.skip(3));
        } else {
            assert(s.skip(4) =~= Seq::<char>::empty());
            assert(base64_bytes(s.skip(4)) =~= Seq::<u8>::empty());
        }
        assert(base64_bytes(s) =~= b);
    } else {
        assert(base64_bytes(base64(b)) =~= b);
    }
}

/// Two texts with the same Base64 text are the same.
pub proof fn base64_text_injective(a: Seq<char>, b: Seq<char>)
    requires
        base64(encode_utf8(a)) == base64(encode_utf8(b)),
    ensures
        a == b,
{
    base64_round_trip(encode_utf8(a));
    base64_round_trip(encode_utf8(b));
    encode_utf8_decode_utf8(a);
    encode_utf8_decode_utf8(b);
}

/// Each group of up to three bytes gives four characters.
pub proof fn base64_length(b: Seq<u8>)
    ensures
        base64(b).len() == 4 * ((b.len() + 2) / 3),
    decreases b.len(),
{
    if b.len() > 3 {
        base64_length(b.skip(3));
    }
}

/// The number of `=` that end the Base64 text of so many bytes.
pub open spec fn padding(len: nat) -> int {
    if len % 3 == 0 {
        0
    } else {
        3 - len % 3
    }
}

/// The character is one of the alphabet.
pub open spec fn base64_char(c: char) -> bool {
    'A' <= c <= 'Z' || 'a' <= c <= 'z' || '0' <= c <= '9' || c == '+' || c == '/'
}

/// A Base64 text consists of characters of the alphabet, and then of one `=` for each byte that
/// the last group lacks.
pub proof fn base64_alphabet(b: Seq<u8>)
    ensures
        ({
            let s = base64(b);
            &&& forall|i: int|
                0 <= i < s.len() - padding(b.len()) ==> base64_char(#[trigger] s[i])
            &&& forall|i: int|
                s.len() - padding(b.len()) <= i < s.len() ==> #[trigger] s[i] == '='
        }),
    decreases b.len(),
{
    let s = base64(b);
    base64_length(b);
    if b.len() > 3 {
        let rest = b.skip(3);
        base64_alphabet(rest);
        base64_length(rest);
        assert forall|i: int| 4 <= i < s.len() implies #[trigger] s[i] == base64(rest)[i - 4] by {}
        assert(padding(b.len()) == padding(rest.len()));
        assert(padding(b.len()) <= base64(rest).len());
    }
}

/// The 64 characters, in the order of the sextets for which they stand.
pub open spec fn alphabet() -> Seq<char> {
    "ABCDEFGHIJKLMNOPQRSTUVWXYZabcdefghijklmnopqrstuvwxyz0123456789+/"@
}

/// Every sextet is written with the character at its place in the alphabet.
pub proof fn sextets_go_by_the_alphabet(v: int)
    requires
        0 <= v < 64,
    ensures
        alphabet().len() == 64,
        sextet_char(v) == alphabet()[v],
{
    reveal_strlit("ABCDEFGHIJKLMNOPQRSTUVWXYZabcdefghijklmnopqrstuvwxyz0123456789+/");
}

/// Characters of the alphabet that stand, four at a time, for a number below `64^4`.
pub open spec fn group_of(s: Seq<char>, at: int, a: int, b: int, c: int, d: int) -> bool {
    &&& 0 <= a < 64
    &&& 0 <= b < 64
    &&& 0 <= c < 64
    &&& 0 <= d < 64
    &&& s[at] == alphabet()[a]
    &&& s[at + 1] == alphabet()[b]
    &&& s[at + 2] == alphabet()[c]
    &&& s[at + 3] == alphabet()[d]
}

/// Group number `k` of the text has the bits of the bytes from `3 * k` on, in their order: four
/// characters for three bytes; three of them and one `=` for the last two bytes; two of them and
/// two `=` for the last one.
pub proof fn groups_hold_the_bits(b: Seq<u8>, k: int)
    requires
        0 <= k,
        3 * k < b.len(),
    ensures
        base64(b).len() >= 4 * k + 4,
        3 * k + 2 < b.len() ==> exists|a0: int, a1: int, a2: int, a3: int|
            #[trigger] group_of(base64(b), 4 * k, a0, a1, a2, a3) && a0 * 262144 + a1 * 4096 + a2
                * 64 + a3 == b[3 * k] * 65536 + b[3 * k + 1] * 256 + b[3 * k + 2],
        3 * k + 2 == b.len() ==> base64(b)[4 * k + 3] == '=' && exists|a0: int, a1: int, a2: int|
            #[trigger] group_of(base64(b).update(4 * k + 3, 'A'), 4 * k, a0, a1, a2, 0) && a0 * 4096
                + a1 * 64 + a2 == (b[3 * k] * 256 + b[3 * k + 1]) * 4,
        3 * k + 1 == b.len() ==> base64(b)[4 * k + 2] == '=' && base64(b)[4 * k + 3] == '='
            && exists|a0: int, a1: int|
            #[trigger] group_of(
                base64(b).update(4 * k + 2, 'A').update(4 * k + 3, 'A'),
                4 * k,
                a0,
                a1,
                0,
                0,
            ) && a0 * 64 + a1 == b[3 * k] * 16,
    decreases k,
{
    base64_length(b);
    if k > 0 {
        let rest = b.skip(3);
        groups_hold_the_bits(rest, k - 1);
        let s = base64(b);
        let t = base64(rest);
        assert forall|i: int| 0 <= i < t.len() implies s[i + 4] == #[trigger] t[i] by {}
        if 3 * k + 2 < b.len() {
            let (a0, a1, a2, a3) = choose|a0: int, a1: int, a2: int, a3: int|
                #[trigger] group_of(t, 4 * (k - 1), a0, a1, a2, a3) && a0 * 262144 + a1 * 4096 + a2
                    * 64 + a3 == rest[3 * (k - 1)] * 65536 + rest[3 * (k - 1) + 1] * 256 + rest[3
                    * (k - 1) + 2];
            assert(group_of(s, 4 * k, a0, a1, a2, a3));
        } else if 3 * k + 2 == b.len() {
            let u = t.update(4 * (k - 1) + 3, 'A');
            let (a0, a1, a2) = choose|a0: int, a1: int, a2: int|
                #[trigger] group_of(u, 4 * (k - 1), a0, a1, a2, 0) && a0 * 4096 + a1 * 64 + a2 == (
                rest[3 * (k - 1)] * 256 + rest[3 * (k - 1) + 1]) * 4;
            assert(group_of(s.update(4 * k + 3, 'A'), 4 * k, a0, a1, a2, 0));
        } else {
            let u = t.update(4 * (k - 1) + 2, 'A').update(4 * (k - 1) + 3, 'A');
            let (a0, a1) = choose|a0: int, a1: int|
                #[trigger] group_of(u, 4 * (k - 1), a0, a1, 0, 0) && a0 * 64 + a1 == rest[3 * (k
                    - 1)] * 16;
            assert(group_of(
                s.update(4 * k + 2, 'A').update(4 * k + 3, 'A'),
                4 * k,
                a0,
                a1,
                0,
                0,
            ));
        }
    } else {
        let b1 = if b.len() > 1 {
            b[1]
        } else {
            0
        };
        let b2 = if b.len() > 2 {
            b[2]
        } else {
            0
        };
        let v = triple(b[0], b1, b2);
        triple_parts(b[0], b1, b2);
        sextets_go_by_the_alphabet(sextet(v, 0));
        sextets_go_by_the_alphabet(sextet(v, 1));
        sextets_go_by_the_alphabet(sextet(v, 2));
        sextets_go_by_the_alphabet(sextet(v, 3));
        sextets_go_by_the_alphabet(0);
        let s = base64(b);
        let a0 = sextet(v, 3);
        let a1 = sextet(v, 2);
        let a2 = sextet(v, 1);
        let a3 = sextet(v, 0);
        assert(alphabet()[0] == 'A');
        if b.len() > 2 {
            assert(group_of(s, 4 * k, a0, a1, a2, a3));
        } else if b.len() == 2 {
            assert(group_of(s.update(4 * k + 3, 'A'), 4 * k, a0, a1, a2, 0));
        } else {
            assert(group_of(
                s.update(4 * k + 2, 'A').update(4 * k + 3, 'A'),
                4 * k,
                a0,
                a1,
                0,
                0,
            ));
        }
    }
}

}

//! The payload micro-language of one caption line: a stream of tokens, each
//! either a two-character hex-byte pair or a single letter from a fixed
//! alphabet that expands to a fixed byte sequence. The decoded line is the
//! flat concatenation of all token expansions in encounter order.

use vstd::prelude::*;

verus! {

/// The three-byte filler unit that the letters `G` through `O` repeat.
pub open spec fn fa_unit() -> Seq<u8> {
    seq![0xFAu8, 0x00u8, 0x00u8]
}

/// `t` repeated `k` times.
pub open spec fn rep(t: Seq<u8>, k: nat) -> Seq<u8>
    decreases k,
{
    if k == 0 {
        Seq::empty()
    } else {
        rep(t, (k - 1) as nat) + t
    }
}

/// The fixed special-letter alphabet.
pub open spec fn is_special_letter(c: char) -> bool {
    ||| c == 'G'
    ||| c == 'H'
    ||| c == 'I'
    ||| c == 'J'
    ||| c == 'K'
    ||| c == 'L'
    ||| c == 'M'
    ||| c == 'N'
    ||| c == 'O'
    ||| c == 'P'
    ||| c == 'Q'
    ||| c == 'R'
    ||| c == 'S'
    ||| c == 'T'
    ||| c == 'U'
    ||| c == 'Z'
}

/// The fixed expansion of a special letter: `G` through `O` are one through
/// nine copies of the filler unit; the rest are fixed marker sequences.
pub open spec fn special_expansion(c: char) -> Seq<u8>
    recommends
        is_special_letter(c),
{
    if c == 'G' {
        rep(fa_unit(), 1)
    } else if c == 'H' {
        rep(fa_unit(), 2)
    } else if c == 'I' {
        rep(fa_unit(), 3)
    } else if c == 'J' {
        rep(fa_unit(), 4)
    } else if c == 'K' {
        rep(fa_unit(), 5)
    } else if c == 'L' {
        rep(fa_unit(), 6)
    } else if c == 'M' {
        rep(fa_unit(), 7)
    } else if c == 'N' {
        rep(fa_unit(), 8)
    } else if c == 'O' {
        rep(fa_unit(), 9)
    } else if c == 'P' {
        seq![0xFBu8, 0x80u8, 0x80u8]
    } else if c == 'Q' {
        seq![0xFCu8, 0x80u8, 0x80u8]
    } else if c == 'R' {
        seq![0xFDu8, 0x80u8, 0x80u8]
    } else if c == 'S' {
        seq![0x96u8, 0x69u8]
    } else if c == 'T' {
        seq![0x61u8, 0x01u8]
    } else if c == 'U' {
        seq![0xE1u8, 0x00u8, 0x00u8, 0x00u8]
    } else if c == 'Z' {
        seq![0x00u8]
    } else {
        Seq::empty()
    }
}

/// The value of a hex digit character, upper or lower case; `None` for any
/// other character.
pub open spec fn hex_digit_value(c: char) -> Option<u8> {
    if 48 <= c as int <= 57 {
        Some((c as int - 48) as u8)
    } else if 65 <= c as int <= 70 {
        Some((c as int - 55) as u8)
    } else if 97 <= c as int <= 102 {
        Some((c as int - 87) as u8)
    } else {
        None
    }
}

/// The byte denoted by a pair of hex digit values.
pub open spec fn hex_pair_val(a: u8, b: u8) -> u8
    recommends
        a <= 15,
        b <= 15,
{
    (a * 16 + b) as u8
}

/// The byte sequence a payload denotes: tokens are consumed from the front,
/// a special letter expanding to its fixed sequence and otherwise two hex
/// digits to one byte, until the payload is exhausted; `None` as soon as
/// neither token form matches.
pub open spec fn spec_decode_payload(s: Seq<char>) -> Option<Seq<u8>>
    decreases s.len(),
{
    if s.len() == 0 {
        Some(Seq::empty())
    } else if is_special_letter(s[0]) {
        match spec_decode_payload(s.skip(1)) {
            Some(rest) => Some(special_expansion(s[0]) + rest),
            None => None,
        }
    } else if s.len() >= 2 && hex_digit_value(s[0]) is Some && hex_digit_value(s[1]) is Some {
        match spec_decode_payload(s.skip(2)) {
            Some(rest) => Some(
                seq![hex_pair_val(hex_digit_value(s[0])->0, hex_digit_value(s[1])->0)] + rest,
            ),
            None => None,
        }
    } else {
        None
    }
}

/// Law: decoding concatenates token expansions in encounter order — after a
/// decodable payload prefix `a`, decoding `a + b` succeeds exactly when
/// decoding `b` does, and yields the expansion of `a` followed by that of
/// `b`.
pub proof fn lemma_decode_payload_concat(a: Seq<char>, b: Seq<char>)
    requires
        spec_decode_payload(a) is Some,
    ensures
        spec_decode_payload(a + b) is Some <==> spec_decode_payload(b) is Some,
        spec_decode_payload(b) is Some ==> spec_decode_payload(a + b) == Some(
            spec_decode_payload(a)->0 + spec_decode_payload(b)->0,
        ),
    decreases a.len(),
{
    if a.len() == 0 {
        assert(a + b =~= b);
        if spec_decode_payload(b) is Some {
            assert(spec_decode_payload(a)->0 + spec_decode_payload(b)->0 =~= spec_decode_payload(
                b,
            )->0);
        }
    } else if is_special_letter(a[0]) {
        assert((a + b)[0] == a[0]);
        assert((a + b).skip(1) =~= a.skip(1) + b);
        lemma_decode_payload_concat(a.skip(1), b);
        if spec_decode_payload(b) is Some {
            let x = spec_decode_payload(a.skip(1))->0;
            let y = spec_decode_payload(b)->0;
            assert(special_expansion(a[0]) + (x + y) =~= (special_expansion(a[0]) + x) + y);
        }
    } else {
        assert((a + b)[0] == a[0]);
        assert((a + b)[1] == a[1]);
        assert((a + b).skip(2) =~= a.skip(2) + b);
        lemma_decode_payload_concat(a.skip(2), b);
        if spec_decode_payload(b) is Some {
            let h = seq![hex_pair_val(hex_digit_value(a[0])->0, hex_digit_value(a[1])->0)];
            let x = spec_decode_payload(a.skip(2))->0;
            let y = spec_decode_payload(b)->0;
            assert(h + (x + y) =~= (h + x) + y);
        }
    }
}

/// The value of a hex digit character, if it is one.
pub fn hex_digit(c: char) -> (r: Option<u8>)
    ensures
        r == hex_digit_value(c),
        r is Some ==> r->0 <= 15,
{
    let cu: u32 = c as u32;
    if 48 <= cu && cu <= 57 {
        Some((cu - 48) as u8)
    } else if 65 <= cu && cu <= 70 {
        Some((cu - 55) as u8)
    } else if 97 <= cu && cu <= 102 {
        Some((cu - 87) as u8)
    } else {
        None
    }
}

/// Tests membership in the special-letter alphabet.
pub fn is_special_char(c: char) -> (r: bool)
    ensures
        r == is_special_letter(c),
{
    c == 'G' || c == 'H' || c == 'I' || c == 'J' || c == 'K' || c == 'L' || c == 'M' || c == 'N'
        || c == 'O' || c == 'P' || c == 'Q' || c == 'R' || c == 'S' || c == 'T' || c == 'U' || c
        == 'Z'
}

/// Builds `k` copies of the filler unit.
fn fa_repeat(k: usize) -> (v: Vec<u8>)
    ensures
        v@ == rep(fa_unit(), k as nat),
{
    let mut v: Vec<u8> = Vec::new();
    let mut i: usize = 0;
    while i < k
        invariant
            i <= k,
            v@ == rep(fa_unit(), i as nat),
        decreases k - i,
    {
        v.push(0xFA);
        v.push(0x00);
        v.push(0x00);
        proof {
            assert(v@ =~= rep(fa_unit(), (i + 1) as nat));
        }
        i = i + 1;
    }
    v
}

/// Builds the fixed expansion of a special letter.
pub fn expansion_vec(c: char) -> (v: Vec<u8>)
    requires
        is_special_letter(c),
    ensures
        v@ == special_expansion(c),
{
    if c == 'G' {
        fa_repeat(1)
    } else if c == 'H' {
        fa_repeat(2)
    } else if c == 'I' {
        fa_repeat(3)
    } else if c == 'J' {
        fa_repeat(4)
    } else if c == 'K' {
        fa_repeat(5)
    } else if c == 'L' {
        fa_repeat(6)
    } else if c == 'M' {
        fa_repeat(7)
    } else if c == 'N' {
        fa_repeat(8)
    } else if c == 'O' {
        fa_repeat(9)
    } else if c == 'P' {
        let v: Vec<u8> = vec![0xFB, 0x80, 0x80];
        proof {
            assert(v@ =~= special_expansion(c));
        }
        v
    } else if c == 'Q' {
        let v: Vec<u8> = vec![0xFC, 0x80, 0x80];
        proof {
            assert(v@ =~= special_expansion(c));
        }
        v
    } else if c == 'R' {
        let v: Vec<u8> = vec![0xFD, 0x80, 0x80];
        proof {
            assert(v@ =~= special_expansion(c));
        }
        v
    } else if c == 'S' {
        let v: Vec<u8> = vec![0x96, 0x69];
        proof {
            assert(v@ =~= special_expansion(c));
        }
        v
    } else if c == 'T' {
        let v: Vec<u8> = vec![0x61, 0x01];
        proof {
            assert(v@ =~= special_expansion(c));
        }
        v
    } else if c == 'U' {
        let v: Vec<u8> = vec![0xE1, 0x00, 0x00, 0x00];
        proof {
            assert(v@ =~= special_expansion(c));
        }
        v
    } else {
        let v: Vec<u8> = vec![0x00];
        proof {
            assert(v@ =~= special_expansion(c));
        }
        v
    }
}

/// Decodes the payload standing in `s` between `from` and `to`.
pub fn decode_payload_range(s: &str, n: usize, from: usize, to: usize) -> (r: Option<Vec<u8>>)
    requires
        n == s@.len(),
        from <= to <= n,
    ensures
        match r {
            Some(v) => spec_decode_payload(s@.subrange(from as int, to as int)) == Some(v@),
            None => spec_decode_payload(s@.subrange(from as int, to as int)) is None,
        },
{
    let ghost whole = s@.subrange(from as int, to as int);
    let mut acc: Vec<u8> = Vec::new();
    let mut pos: usize = from;
    while pos < to
        invariant
            from <= pos <= to <= n,
            n == s@.len(),
            whole == s@.subrange(from as int, to as int),
            spec_decode_payload(s@.subrange(pos as int, to as int)) is Some <==> spec_decode_payload(
                whole,
            ) is Some,
            spec_decode_payload(s@.subrange(pos as int, to as int)) is Some ==> spec_decode_payload(
                whole,
            )->0 == acc@ + spec_decode_payload(s@.subrange(pos as int, to as int))->0,
        decreases to - pos,
    {
        let ghost t = s@.subrange(pos as int, to as int);
        let c = s.get_char(pos);
        proof {
            assert(t[0] == s@[pos as int]);
        }
        if is_special_char(c) {
            let mut exp = expansion_vec(c);
            let ghost acc0 = acc@;
            acc.append(&mut exp);
            proof {
                assert(t.skip(1) =~= s@.subrange(pos + 1, to as int));
                if spec_decode_payload(s@.subrange(pos + 1, to as int)) is Some {
                    let rest = spec_decode_payload(s@.subrange(pos + 1, to as int))->0;
                    assert(spec_decode_payload(t)->0 == special_expansion(c) + rest);
                    assert(acc0 + (special_expansion(c) + rest) =~= (acc0 + special_expansion(c))
                        + rest);
                }
            }
            pos = pos + 1;
        } else {
            if pos + 1 >= to {
                proof {
                    assert(t.len() == 1);
                    assert(spec_decode_payload(t) is None);
                }
                return None;
            }
            let c2 = s.get_char(pos + 1);
            proof {
                assert(t[1] == s@[pos + 1]);
            }
            let h1 = hex_digit(c);
            let h2 = hex_digit(c2);
            if h1.is_none() || h2.is_none() {
                proof {
                    assert(spec_decode_payload(t) is None);
                }
                return None;
            }
            let a = h1.unwrap();
            let b = h2.unwrap();
            let byte: u8 = a * 16 + b;
            let ghost acc0 = acc@;
            acc.push(byte);
            proof {
                assert(t.skip(2) =~= s@.subrange(pos + 2, to as int));
                if spec_decode_payload(s@.subrange(pos + 2, to as int)) is Some {
                    let rest = spec_decode_payload(s@.subrange(pos + 2, to as int))->0;
                    assert(spec_decode_payload(t)->0 == seq![byte] + rest);
                    assert(acc0 + (seq![byte] + rest) =~= (acc0 + seq![byte]) + rest);
                    assert(acc0 + seq![byte] =~= acc0.push(byte));
                }
            }
            pos = pos + 2;
        }
    }
    proof {
        assert(s@.subrange(to as int, to as int) =~= Seq::<char>::empty());
        assert(spec_decode_payload(Seq::<char>::empty()) == Some(Seq::<u8>::empty()));
        if spec_decode_payload(whole) is Some {
            assert(spec_decode_payload(whole)->0 == acc@ + Seq::<u8>::empty());
            assert(acc@ + Seq::<u8>::empty() =~= acc@);
        }
    }
    Some(acc)
}

/// Decodes a whole payload string into its byte sequence; `None` exactly
/// when some position matches neither token form.
pub fn decode_payload(s: &str) -> (r: Option<Vec<u8>>)
    ensures
        match r {
            Some(v) => spec_decode_payload(s@) == Some(v@),
            None => spec_decode_payload(s@) is None,
        },
{
    let n: usize = s.unicode_len();
    let r = decode_payload_range(s, n, 0, n);
    proof {
        assert(s@.subrange(0, n as int) =~= s@);
    }
    r
}

} // verus!

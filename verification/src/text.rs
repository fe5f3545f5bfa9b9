//! Hex-encoded values as they travel over JSON-based RPC transports:
//! decoding, and parsing a 32-byte transaction hash written with an
//! optional `0x` marker.

use vstd::prelude::*;

use crate::HASH_LEN;

verus! {

/// The value of one ASCII hex digit.
pub open spec fn hex_digit_val(c: u8) -> Option<u8> {
    if 0x30 <= c && c <= 0x39 {
        Some((c - 0x30) as u8)
    } else if 0x61 <= c && c <= 0x66 {
        Some((c - 0x61 + 10) as u8)
    } else if 0x41 <= c && c <= 0x46 {
        Some((c - 0x41 + 10) as u8)
    } else {
        None
    }
}

/// The bytes a hex string denotes: two digits per byte, high digit
/// first.  An odd length or a non-digit yields nothing.
pub open spec fn hex_decode(s: Seq<u8>) -> Option<Seq<u8>>
    decreases s.len(),
{
    if s.len() == 0 {
        Some(Seq::empty())
    } else if s.len() == 1 {
        None
    } else {
        match (hex_digit_val(s[0]), hex_digit_val(s[1])) {
            (Some(h), Some(l)) => match hex_decode(s.skip(2)) {
                Some(rest) => Some(seq![((h * 16 + l) as u8)] + rest),
                None => None,
            },
            _ => None,
        }
    }
}

/// A hex string with its optional leading `0x` (or `0X`) marker
/// removed.
pub open spec fn strip_hex_prefix(s: Seq<u8>) -> Seq<u8> {
    if s.len() >= 2 && s[0] == 0x30 && (s[1] == 0x78 || s[1] == 0x58) {
        s.skip(2)
    } else {
        s
    }
}

fn hex_digit_exec(c: u8) -> (r: Option<u8>)
    ensures
        r == hex_digit_val(c),
        r matches Some(v) ==> v < 16,
{
    if 0x30 <= c && c <= 0x39 {
        Some(c - 0x30)
    } else if 0x61 <= c && c <= 0x66 {
        Some(c - 0x61 + 10)
    } else if 0x41 <= c && c <= 0x46 {
        Some(c - 0x41 + 10)
    } else {
        None
    }
}

proof fn lemma_hex_decode_odd(s: Seq<u8>)
    requires
        s.len() % 2 == 1,
    ensures
        hex_decode(s) is None,
    decreases s.len(),
{
    if s.len() > 1 {
        assert(s.skip(2).len() % 2 == 1);
        lemma_hex_decode_odd(s.skip(2));
    }
}

/// Decoding splits at any even position: the whole string decodes
/// exactly when both halves do, to the concatenation.
proof fn lemma_hex_decode_split(s: Seq<u8>, i: int)
    requires
        0 <= i <= s.len(),
        i % 2 == 0,
    ensures
        hex_decode(s) == (match hex_decode(s.take(i)) {
            Some(pre) => match hex_decode(s.skip(i)) {
                Some(post) => Some(pre + post),
                None => None,
            },
            None => None,
        }),
    decreases i,
{
    if i == 0 {
        assert(s.take(0) =~= Seq::<u8>::empty());
        assert(hex_decode(s.take(0)) == Some(Seq::<u8>::empty()));
        assert(s.skip(0) =~= s);
        match hex_decode(s) {
            Some(d) => {
                assert(Seq::<u8>::empty() + d =~= d);
            },
            None => {},
        }
    } else {
        assert(s.len() >= 2);
        let t = s.take(i);
        assert(t.len() == i >= 2);
        assert(t[0] == s[0]);
        assert(t[1] == s[1]);
        match (hex_digit_val(s[0]), hex_digit_val(s[1])) {
            (Some(h), Some(l)) => {
                let b = seq![((h * 16 + l) as u8)];
                lemma_hex_decode_split(s.skip(2), i - 2);
                assert(s.skip(2).take(i - 2) =~= t.skip(2));
                assert(s.skip(2).skip(i - 2) =~= s.skip(i));
                match hex_decode(t.skip(2)) {
                    Some(pre2) => {
                        assert(hex_decode(t) == Some(b + pre2));
                        match hex_decode(s.skip(i)) {
                            Some(post) => {
                                assert(hex_decode(s.skip(2)) == Some(pre2 + post));
                                assert(hex_decode(s) == Some(b + (pre2 + post)));
                                assert(b + (pre2 + post) =~= (b + pre2) + post);
                            },
                            None => {
                                assert(hex_decode(s.skip(2)) is None);
                                assert(hex_decode(s) is None);
                            },
                        }
                    },
                    None => {
                        assert(hex_decode(t) is None);
                        assert(hex_decode(s.skip(2)) is None);
                        assert(hex_decode(s) is None);
                    },
                }
            },
            _ => {
                assert(hex_decode(s) is None);
                assert(hex_decode(t) is None);
            },
        }
    }
}

/// Decodes a hex string, two digits per byte.
pub fn decode_hex(s: &Vec<u8>) -> (r: Option<Vec<u8>>)
    ensures
        r matches Some(v) ==> hex_decode(s@) == Some(v@),
        r is None ==> hex_decode(s@) is None,
{
    if s.len() % 2 != 0 {
        proof {
            lemma_hex_decode_odd(s@);
        }
        return None;
    }
    let mut out: Vec<u8> = Vec::new();
    let mut i: usize = 0;
    proof {
        assert(s@.take(0) =~= Seq::<u8>::empty());
    }
    while i < s.len()
        invariant
            i <= s@.len(),
            i % 2 == 0,
            s@.len() % 2 == 0,
            hex_decode(s@.take(i as int)) == Some(out@),
        decreases s@.len() - i,
    {
        proof {
            lemma_hex_decode_split(s@, i as int);
        }
        let h = match hex_digit_exec(s[i]) {
            Some(h) => h,
            None => {
                proof {
                    assert(s@.skip(i as int).len() >= 2);
                    assert(s@.skip(i as int)[0] == s@[i as int]);
                    assert(hex_decode(s@.skip(i as int)) is None);
                }
                return None;
            },
        };
        let l = match hex_digit_exec(s[i + 1]) {
            Some(l) => l,
            None => {
                proof {
                    assert(s@.skip(i as int).len() >= 2);
                    assert(s@.skip(i as int)[0] == s@[i as int]);
                    assert(s@.skip(i as int)[1] == s@[i as int + 1]);
                    assert(hex_decode(s@.skip(i as int)) is None);
                }
                return None;
            },
        };
        let ghost out0 = out@;
        let b = h * 16 + l;
        out.push(b);
        proof {
            let t = s@.take(i as int + 2);
            lemma_hex_decode_split(t, i as int);
            assert(t.take(i as int) =~= s@.take(i as int));
            assert(t.skip(i as int).len() == 2);
            assert(t.skip(i as int)[0] == s@[i as int]);
            assert(t.skip(i as int)[1] == s@[i as int + 1]);
            assert(t.skip(i as int).skip(2) =~= Seq::<u8>::empty());
            assert(hex_decode(Seq::<u8>::empty()) == Some(Seq::<u8>::empty()));
            assert(hex_decode(t.skip(i as int)) == Some(seq![b] + Seq::<u8>::empty()));
            assert(seq![b] + Seq::<u8>::empty() =~= seq![b]);
            assert(out0.push(b) =~= out0 + seq![b]);
            assert(hex_decode(t) == Some(out@));
        }
        i = i + 2;
    }
    proof {
        assert(s@.take(s@.len() as int) =~= s@);
    }
    Some(out)
}

/// Parses a transaction hash: hex with an optional `0x` marker,
/// denoting exactly 32 bytes.
pub fn parse_tx_hash(s: &Vec<u8>) -> (r: Option<Vec<u8>>)
    ensures
        r matches Some(v) ==> hex_decode(strip_hex_prefix(s@)) == Some(v@) && v@.len()
            == HASH_LEN,
        r is None ==> (match hex_decode(strip_hex_prefix(s@)) {
            Some(d) => d.len() != HASH_LEN,
            None => true,
        }),
{
    let stripped: Vec<u8> = if s.len() >= 2 && s[0] == 0x30 && (s[1] == 0x78 || s[1] == 0x58) {
        crate::bytes::drop_prefix(s, 2)
    } else {
        crate::bytes::take_prefix(s, s.len())
    };
    proof {
        assert(s@.take(s@.len() as int) =~= s@);
        assert(stripped@ == strip_hex_prefix(s@));
    }
    match decode_hex(&stripped) {
        Some(v) => {
            if v.len() == HASH_LEN {
                Some(v)
            } else {
                None
            }
        },
        None => None,
    }
}

} // verus!

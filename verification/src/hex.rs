//! Verified parsing of hexadecimal integer fields as they appear in a
//! runtime-emitted symbol map.
use vstd::prelude::*;

verus! {

/// Value of a single hexadecimal digit, or -1 if the character is none.
pub open spec fn spec_hex_digit(c: char) -> int {
    if '0' <= c && c <= '9' {
        c as int - '0' as int
    } else if 'a' <= c && c <= 'f' {
        10 + c as int - 'a' as int
    } else if 'A' <= c && c <= 'F' {
        10 + c as int - 'A' as int
    } else {
        -1
    }
}

/// Folds hexadecimal digits from the left onto an accumulator; `None` on a
/// non-digit character or once the value can no longer fit in 64 bits.
pub open spec fn spec_hex_fold(s: Seq<char>, acc: u64) -> Option<u64>
    decreases s.len(),
{
    if s.len() == 0 {
        Some(acc)
    } else if spec_hex_digit(s[0]) < 0 {
        None
    } else if acc >= 0x1000_0000_0000_0000 {
        None
    } else {
        spec_hex_fold(s.drop_first(), (16 * acc + spec_hex_digit(s[0])) as u64)
    }
}

/// The value of a hexadecimal field: an optional leading `+`, then at
/// least one digit, the whole value fitting in 64 bits; `None` otherwise.
pub open spec fn spec_parse_hex_u64(s: Seq<char>) -> Option<u64> {
    let body = if s.len() > 0 && s[0] == '+' {
        s.drop_first()
    } else {
        s
    };
    if body.len() == 0 {
        None
    } else {
        spec_hex_fold(body, 0)
    }
}

/// The field with any leading `0x` markers removed, as the resolver
/// strips them from address fields.
pub open spec fn spec_strip_hex_prefix(s: Seq<char>) -> Seq<char>
    decreases s.len(),
{
    if s.len() >= 2 && s[0] == '0' && s[1] == 'x' {
        spec_strip_hex_prefix(s.skip(2))
    } else {
        s
    }
}

fn hex_digit(c: char) -> (r: Option<u8>)
    ensures
        r matches Some(d) ==> spec_hex_digit(c) == d as int,
        r is None ==> spec_hex_digit(c) < 0,
{
    if '0' <= c && c <= '9' {
        Some((c as u32 - '0' as u32) as u8)
    } else if 'a' <= c && c <= 'f' {
        Some((10 + c as u32 - 'a' as u32) as u8)
    } else if 'A' <= c && c <= 'F' {
        Some((10 + c as u32 - 'A' as u32) as u8)
    } else {
        None
    }
}

/// Parses a whole hexadecimal field (optional leading `+`, digits only)
/// into a 64-bit value, rejecting anything else and values that overflow.
pub fn parse_hex_u64(s: &str) -> (r: Option<u64>)
    ensures
        r == spec_parse_hex_u64(s@),
{
    let len: usize = s.unicode_len();
    let start: usize = if len > 0 && s.get_char(0) == '+' {
        1
    } else {
        0
    };
    proof {
        if start == 1 {
            assert(s@.drop_first() =~= s@.subrange(1, len as int));
        } else {
            assert(s@ =~= s@.subrange(0, len as int));
        }
    }
    if start == len {
        return None;
    }
    let mut i: usize = start;
    let mut acc: u64 = 0;
    loop
        invariant
            start <= i <= len,
            len == s@.len(),
            spec_parse_hex_u64(s@) == spec_hex_fold(s@.subrange(i as int, len as int), acc),
        decreases len - i,
    {
        if i == len {
            proof {
                assert(s@.subrange(i as int, len as int) =~= Seq::<char>::empty());
            }
            return Some(acc);
        }
        let c = s.get_char(i);
        proof {
            assert(s@.subrange(i as int, len as int)[0] == s@[i as int]);
            assert(s@.subrange(i as int, len as int).drop_first() =~= s@.subrange(
                i as int + 1,
                len as int,
            ));
        }
        match hex_digit(c) {
            None => {
                return None;
            },
            Some(d) => {
                if acc >= 0x1000_0000_0000_0000 {
                    return None;
                }
                acc = 16 * acc + d as u64;
                i = i + 1;
            },
        }
    }
}

} // verus!

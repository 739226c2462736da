//! Reading the `q` parameter RFC 9110 section 12.4.2 defines.
//!
//! ```text
//! qvalue = ( "0" [ "." 0*3DIGIT ] ) / ( "1" [ "." 0*3("0") ] )
//! ```

use vstd::prelude::*;

use crate::octets::{all_digits, digits_value, is_digit};

verus! {

/// Whether `s` is `1` with up to three zero decimals.
pub open spec fn is_one(s: Seq<u8>) -> bool {
    s == seq![0x31u8] || (s.len() >= 3 && s.len() <= 5 && s[0] == 0x31u8 && s[1] == 0x2eu8
        && forall|k: int| 2 <= k < s.len() ==> #[trigger] s[k] == 0x30u8)
}

/// The weight a qvalue states, in thousandths; `None` where `s` is not one.
///
/// The grammar bounds a qvalue at three decimal places and at 1, so `1.5` and
/// `0.1234` are refusals rather than values to round.
pub open spec fn qvalue(s: Seq<u8>) -> Option<u16> {
    if is_one(s) {
        Some(1000)
    } else if s == seq![0x30u8] {
        Some(0)
    } else if s.len() >= 3 && s.len() <= 5 && s[0] == 0x30u8 && s[1] == 0x2eu8 && all_digits(
        s.skip(2),
    ) {
        let d = s.skip(2);
        let scale: nat = if d.len() == 1 {
            100
        } else if d.len() == 2 {
            10
        } else {
            1
        };
        Some((digits_value(d) * scale) as u16)
    } else {
        None
    }
}

/// The weight `value` states, in thousandths, or `None` when it is not a
/// qvalue.
pub fn parse(value: &[u8]) -> (r: Option<u16>)
    ensures
        r == qvalue(value@),
{
    let n = value.len();
    if n == 1 {
        if value[0] == 0x31 {
            assert(value@ =~= seq![0x31u8]);
            return Some(1000);
        }
        if value[0] == 0x30 {
            assert(value@ =~= seq![0x30u8]);
            return Some(0);
        }
        assert(!is_one(value@));
        return None;
    }
    if n < 3 || n > 5 || value[1] != 0x2e {
        assert(!is_one(value@));
        return None;
    }
    if value[0] == 0x31 {
        let mut i: usize = 2;
        while i < n
            invariant
                n == value.len(),
                3 <= n <= 5,
                value@[0] == 0x31u8,
                value@[1] == 0x2eu8,
                2 <= i <= n,
                forall|k: int| 2 <= k < i ==> #[trigger] value@[k] == 0x30u8,
            decreases n - i,
        {
            if value[i] != 0x30 {
                assert(value@[i as int] != 0x30u8);
                assert(!is_one(value@));
                assert(value@[0] == 0x31u8);
                return None;
            }
            i = i + 1;
        }
        return Some(1000);
    }
    if value[0] != 0x30 {
        assert(!is_one(value@));
        return None;
    }
    assert(!is_one(value@));
    let ghost d = value@.skip(2);
    let mut acc: u16 = 0;
    let mut i: usize = 2;
    while i < n
        invariant
            n == value.len(),
            3 <= n <= 5,
            2 <= i <= n,
            d == value@.skip(2),
            all_digits(d.take(i - 2)),
            acc as nat == digits_value(d.take(i - 2)),
            acc < 1000,
            i - 2 == 0 ==> acc == 0,
            i - 2 == 1 ==> acc < 10,
            i - 2 == 2 ==> acc < 100,
        decreases n - i,
    {
        let b = value[i];
        assert(d.take(i - 2 + 1).drop_last() =~= d.take(i - 2));
        assert(d[i - 2] == b);
        if b < 0x30 || b > 0x39 {
            assert(!is_digit(d[i - 2]));
            return None;
        }
        acc = acc * 10 + (b - 0x30) as u16;
        i = i + 1;
    }
    assert(d.take(n - 2) =~= d);
    let scaled: u16 = if n == 3 {
        acc * 100
    } else if n == 4 {
        acc * 10
    } else {
        acc
    };
    Some(scaled)
}

} // verus!

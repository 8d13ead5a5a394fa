//! Build-time settings given as decimal text (pin numbers, device IDs).

use vstd::prelude::*;

verus! {

/// Whether every byte is an ASCII decimal digit.
pub open spec fn all_digits(s: Seq<u8>) -> bool {
    forall|i: int| 0 <= i < s.len() ==> 0x30 <= #[trigger] s[i] <= 0x39
}

/// The value of a run of decimal digits; the empty run is 0.
pub open spec fn decimal_value(s: Seq<u8>) -> nat
    decreases s.len(),
{
    if s.len() == 0 {
        0
    } else {
        (decimal_value(s.drop_last()) * 10 + (s.last() - 0x30)) as nat
    }
}

/// Parses decimal text into a value of at most `max`. Returns `None` when a
/// byte is not a digit or the value exceeds `max`.
pub fn parse_decimal(s: &[u8], max: u64) -> (r: Option<u64>)
    ensures
        r == (if all_digits(s@) && decimal_value(s@) <= max {
            Some(decimal_value(s@) as u64)
        } else {
            None::<u64>
        }),
{
    let mut value: u64 = 0;
    let mut i: usize = 0;
    let mut too_large = false;
    while i < s.len()
        invariant
            i <= s@.len(),
            all_digits(s@.take(i as int)),
            too_large ==> decimal_value(s@.take(i as int)) > max,
            !too_large ==> value == decimal_value(s@.take(i as int)) && value <= max,
        decreases s@.len() - i,
    {
        let b = s[i];
        if b < 0x30 || b > 0x39 {
            assert(!all_digits(s@)) by {
                assert(s@[i as int] == b);
            }
            return None;
        }
        let d = (b - 0x30) as u64;
        let ghost prev = decimal_value(s@.take(i as int));
        assert(s@.take(i as int + 1).drop_last() =~= s@.take(i as int));
        assert(decimal_value(s@.take(i as int + 1)) == prev * 10 + d);
        if !too_large {
            if d > max || value > (max - d) / 10 {
                assert(value * 10 + d > max) by (nonlinear_arith)
                    requires
                        d > max || value > (max - d) / 10,
                ;
                too_large = true;
            } else {
                assert(value * 10 + d <= max) by (nonlinear_arith)
                    requires
                        value <= (max - d) / 10,
                        d <= max,
                ;
                value = value * 10 + d;
            }
        } else {
            assert(prev * 10 + d > max) by (nonlinear_arith)
                requires
                    prev > max,
            ;
        }
        i += 1;
        assert(all_digits(s@.take(i as int))) by {
            assert forall|k: int| 0 <= k < i implies 0x30 <= #[trigger] s@.take(i as int)[k]
                <= 0x39 by {
                if k < i - 1 {
                    assert(s@.take(i as int)[k] == s@.take(i - 1)[k]);
                }
            }
        }
    }
    assert(s@.take(s@.len() as int) =~= s@);
    if too_large {
        None
    } else {
        Some(value)
    }
}

} // verus!

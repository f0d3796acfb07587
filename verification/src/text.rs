//! Text rules for user-supplied strings: decimal prices and metadata.
//!
//! Metadata is stored as contract state and later consumed by wallets,
//! indexers and off-chain services. The vault accepts identifiers and values
//! without control characters and without surrounding spaces; the stricter
//! metadata policy accepts visible ASCII only, so that no invisible control,
//! bidi override or look-alike character can make two different byte strings
//! appear identical. ASCII has no decomposed forms, so an accepted value is
//! already in its one canonical byte form.

use vstd::prelude::*;

verus! {

/// Maximum byte length accepted by [`normalize_visible_ascii`].
pub const MAX_VALIDATED_STRING_LEN: u32 = 256;

/// `b` is an ASCII decimal digit.
pub open spec fn is_digit(b: u8) -> bool {
    48 <= b <= 57
}

/// Every byte of `s` is a decimal digit.
pub open spec fn all_digits(s: Seq<u8>) -> bool {
    forall|i: int| 0 <= i < s.len() ==> is_digit(#[trigger] s[i])
}

/// The value of a string of decimal digits.
pub open spec fn digits_value(s: Seq<u8>) -> int
    decreases s.len(),
{
    if s.len() == 0 {
        0
    } else {
        digits_value(s.drop_last()) * 10 + (s.last() - 48)
    }
}

/// The digits that follow an optional leading `+` or `-`.
pub open spec fn unsigned_part(s: Seq<u8>) -> Seq<u8> {
    if s.len() > 0 && (s[0] == 45 || s[0] == 43) {
        s.drop_first()
    } else {
        s
    }
}

/// What `i128`'s decimal parser accepts: an optional sign followed by one or
/// more decimal digits, whose value fits in `i128`.
pub open spec fn parse_i128_spec(s: Seq<u8>) -> Option<i128> {
    let body = unsigned_part(s);
    let v: int = if s.len() > 0 && s[0] == 45 {
        -digits_value(body)
    } else {
        digits_value(body)
    };
    if body.len() == 0 || !all_digits(body) {
        None
    } else if i128::MIN <= v <= i128::MAX {
        Some(v as i128)
    } else {
        None
    }
}

proof fn lemma_digits_value_nonneg(s: Seq<u8>)
    requires
        all_digits(s),
    ensures
        digits_value(s) >= 0,
    decreases s.len(),
{
    if s.len() > 0 {
        assert(all_digits(s.drop_last()));
        lemma_digits_value_nonneg(s.drop_last());
    }
}

/// Appending digits never makes the value smaller.
proof fn lemma_digits_value_grows(s: Seq<u8>, i: int)
    requires
        all_digits(s),
        0 <= i <= s.len(),
    ensures
        digits_value(s.subrange(0, i)) <= digits_value(s),
    decreases s.len() - i,
{
    if i < s.len() {
        let t = s.subrange(0, i + 1);
        assert(t.drop_last() =~= s.subrange(0, i));
        assert(all_digits(s.subrange(0, i)));
        lemma_digits_value_nonneg(s.subrange(0, i));
        lemma_digits_value_grows(s, i + 1);
    } else {
        assert(s.subrange(0, i) =~= s);
    }
}

/// Parse a decimal `i128` the way `str::parse::<i128>` does.
pub fn parse_i128(s: &[u8]) -> (r: Option<i128>)
    ensures
        r == parse_i128_spec(s@),
{
    let n = s.len();
    let neg = n > 0 && s[0] == 45u8;
    let start: usize = if n > 0 && (s[0] == 45u8 || s[0] == 43u8) {
        1
    } else {
        0
    };
    let ghost body = unsigned_part(s@);
    proof {
        assert(body =~= s@.subrange(start as int, n as int));
    }
    if start == n {
        return None;
    }
    let mut acc: i128 = 0;
    let mut i: usize = start;
    while i < n
        invariant
            start <= i <= n,
            n == s@.len(),
            start < n,
            body == s@.subrange(start as int, n as int),
            body == unsigned_part(s@),
            neg == (s@.len() > 0 && s@[0] == 45),
            all_digits(body.subrange(0, i - start)),
            acc == (if neg {
                -digits_value(body.subrange(0, i - start))
            } else {
                digits_value(body.subrange(0, i - start))
            }),
        decreases n - i,
    {
        let b = s[i];
        let ghost k = i - start;
        proof {
            assert(body[k] == b);
            assert(body.subrange(0, k + 1).drop_last() =~= body.subrange(0, k));
            assert(body.subrange(0, k + 1).last() == b);
        }
        if b < 48u8 || b > 57u8 {
            proof {
                assert(!is_digit(body[k]));
                assert(!all_digits(body));
                assert(parse_i128_spec(s@) is None);
            }
            return None;
        }
        let d = (b - 48u8) as i128;
        let m = acc.checked_mul(10);
        let next = match m {
            Some(x) => if neg {
                x.checked_sub(d)
            } else {
                x.checked_add(d)
            },
            None => None,
        };
        match next {
            Some(v) => {
                acc = v;
                proof {
                    assert(all_digits(body.subrange(0, k + 1)));
                }
            },
            None => {
                proof {
                    assert(all_digits(body.subrange(0, k + 1)));
                    let dk = digits_value(body.subrange(0, k));
                    let dk1 = digits_value(body.subrange(0, k + 1));
                    assert(dk1 == dk * 10 + (b - 48));
                    lemma_digits_value_nonneg(body.subrange(0, k));
                    if neg {
                        assert(-dk1 < i128::MIN);
                    } else {
                        assert(dk1 > i128::MAX);
                    }
                    if all_digits(body) {
                        lemma_digits_value_grows(body, k + 1);
                    }
                    assert(parse_i128_spec(s@) is None);
                }
                return None;
            },
        }
        i = i + 1;
    }
    proof {
        assert(body.subrange(0, n - start) =~= body);
    }
    Some(acc)
}

/// A vault input is accepted: non-empty, no control character (0x00-0x1F,
/// 0x7F), no leading or trailing space.
pub open spec fn vault_input_ok(s: Seq<u8>) -> bool {
    &&& s.len() > 0
    &&& forall|i: int| 0 <= i < s.len() ==> (#[trigger] s[i] > 0x1F && s[i] != 0x7F)
    &&& s[0] != 0x20
    &&& s[s.len() - 1] != 0x20
}

/// Validate a vault input string: non-empty, no control characters, no
/// leading or trailing space.
pub fn validate_vault_input(s: &Vec<u8>) -> (r: Result<(), ()>)
    requires
        s@.len() <= 256,
    ensures
        r is Ok <==> vault_input_ok(s@),
{
    let len = s.len();
    if len == 0 {
        return Err(());
    }
    let mut i: usize = 0;
    while i < len
        invariant
            len == s@.len(),
            0 <= i <= len,
            forall|j: int| 0 <= j < i ==> (#[trigger] s@[j] > 0x1F && s@[j] != 0x7F),
        decreases len - i,
    {
        let b = s[i];
        if b <= 0x1F || b == 0x7F {
            return Err(());
        }
        i = i + 1;
    }
    if s[0] == 0x20 || s[len - 1] == 0x20 {
        return Err(());
    }
    Ok(())
}

/// A metadata string meets the on-chain policy: 1 to 256 bytes of visible
/// ASCII (0x20-0x7E), no leading or trailing space.
pub open spec fn visible_ascii_ok(s: Seq<u8>) -> bool {
    &&& 0 < s.len() <= MAX_VALIDATED_STRING_LEN
    &&& s[0] != 0x20
    &&& s[s.len() - 1] != 0x20
    &&& forall|i: int| 0 <= i < s.len() ==> 0x20 <= #[trigger] s[i] <= 0x7e
}

/// Normalize a bounded metadata string to its canonical on-chain form: the
/// bytes of `s`, zero-padded to [`MAX_VALIDATED_STRING_LEN`] bytes.
pub fn normalize_visible_ascii(s: &Vec<u8>) -> (r: Result<[u8; 256], ()>)
    ensures
        r is Ok <==> visible_ascii_ok(s@),
        r matches Ok(buf) ==> buf@.subrange(0, s@.len() as int) == s@ && forall|i: int|
            s@.len() <= i < 256 ==> #[trigger] buf@[i] == 0u8,
{
    let len = s.len();
    if len == 0 || len > 256 {
        return Err(());
    }
    if s[0] == 0x20 || s[len - 1] == 0x20 {
        return Err(());
    }
    let mut buf = [0u8; 256];
    let mut i: usize = 0;
    while i < len
        invariant
            len == s@.len(),
            len <= 256,
            0 <= i <= len,
            forall|j: int| 0 <= j < i ==> 0x20 <= #[trigger] s@[j] <= 0x7e,
            forall|j: int| 0 <= j < i ==> #[trigger] buf@[j] == s@[j],
            forall|j: int| i <= j < 256 ==> #[trigger] buf@[j] == 0u8,
        decreases len - i,
    {
        let b = s[i];
        if b < 0x20 || b > 0x7e {
            return Err(());
        }
        buf[i] = b;
        i = i + 1;
    }
    assert(buf@.subrange(0, len as int) =~= s@);
    Ok(buf)
}

/// Whether a bounded metadata string is accepted by the on-chain policy.
pub fn is_visible_ascii_metadata(s: &Vec<u8>) -> (r: bool)
    ensures
        r == visible_ascii_ok(s@),
{
    normalize_visible_ascii(s).is_ok()
}

} // verus!

use vstd::prelude::*;

verus! {

/// ASCII digit test.
pub open spec fn is_digit(b: u8) -> bool {
    48 <= b <= 57
}

pub open spec fn all_digits(s: Seq<u8>) -> bool {
    forall|i: int| 0 <= i < s.len() ==> is_digit(#[trigger] s[i])
}

/// Value of a digit string, most significant digit first.
pub open spec fn digits_value(s: Seq<u8>) -> int
    decreases s.len(),
{
    if s.len() == 0 {
        0
    } else {
        digits_value(s.drop_last()) * 10 + (s.last() - 48)
    }
}

/// The canonical digit string of a non-negative number.
pub open spec fn nat_rep(n: int) -> Seq<u8>
    decreases n,
{
    if n <= 0 {
        seq![48u8]
    } else if n < 10 {
        seq![(48 + n) as u8]
    } else {
        nat_rep(n / 10).push((48 + n % 10) as u8)
    }
}

/// The canonical byte string of a signed number: a minus sign before the
/// digit string of the magnitude.
pub open spec fn int_rep(n: int) -> Seq<u8> {
    if n < 0 {
        seq![45u8] + nat_rep(-n)
    } else {
        nat_rep(n)
    }
}

/// A byte string that `parse_i64` accepts: one or more digits, with an
/// optional leading minus sign, whose magnitude fits in `i64::MAX`.
pub open spec fn valid_number(s: Seq<u8>) -> bool {
    ||| (s.len() >= 1 && all_digits(s) && digits_value(s) <= i64::MAX)
    ||| (s.len() >= 2 && s[0] == 45 && all_digits(s.skip(1)) && digits_value(s.skip(1))
        <= i64::MAX)
}

/// The number a valid byte string denotes.
pub open spec fn number_value(s: Seq<u8>) -> int {
    if s.len() >= 1 && s[0] == 45 {
        -digits_value(s.skip(1))
    } else {
        digits_value(s)
    }
}

proof fn lemma_digits_value_nonneg(s: Seq<u8>)
    requires
        all_digits(s),
    ensures
        digits_value(s) >= 0,
    decreases s.len(),
{
    if s.len() > 0 {
        assert(all_digits(s.drop_last()));
        lemma_digits_value_nonneg(s.drop_last());
    }
}

/// Longer digit prefixes denote larger or equal values.
proof fn lemma_digits_prefix_le(s: Seq<u8>, i: int)
    requires
        all_digits(s),
        0 <= i <= s.len(),
    ensures
        digits_value(s.take(i)) <= digits_value(s),
    decreases s.len() - i,
{
    assert(all_digits(s.take(i)));
    lemma_digits_value_nonneg(s.take(i));
    if i < s.len() {
        assert(s.take(i + 1).drop_last() =~= s.take(i));
        assert(s.take(i + 1).last() == s[i]);
        lemma_digits_prefix_le(s, i + 1);
    } else {
        assert(s.take(i) =~= s);
    }
}

/// Parses a decimal integer with an optional leading minus sign; `None`
/// exactly on malformed input: an empty field, a lone minus, a non-digit, or
/// a magnitude above `i64::MAX`.
pub fn parse_i64(s: &[u8]) -> (r: Option<i64>)
    ensures
        match r {
            Some(v) => valid_number(s@) && v as int == number_value(s@),
            None => !valid_number(s@),
        },
{
    if s.len() == 0 {
        return None;
    }
    let negative = s[0] == 45;
    let start: usize = if negative {
        1
    } else {
        0
    };
    if start >= s.len() {
        return None;
    }
    let ghost digits = if negative {
        s@.skip(1)
    } else {
        s@
    };
    let mut acc: i64 = 0;
    let mut i: usize = start;
    proof {
        assert(digits.take(0) =~= Seq::<u8>::empty());
    }
    while i < s.len()
        invariant
            start <= i <= s@.len(),
            start <= 1,
            s@.len() > start,
            negative == (s@[0] == 45),
            digits == (if negative { s@.skip(1) } else { s@ }),
            digits.len() == s@.len() - start,
            all_digits(digits.take(i - start)),
            0 <= acc,
            acc as int == digits_value(digits.take(i - start)),
        decreases s@.len() - i,
    {
        let b = s[i];
        if b < 48 || b > 57 {
            proof {
                assert(digits[i - start] == s@[i as int]);
                assert(!is_digit(digits[i - start]));
                assert(!all_digits(digits));
                if negative {
                    assert(!is_digit(s@[0]));
                    assert(!all_digits(s@));
                    assert(!all_digits(s@.skip(1)));
                } else {
                    assert(!all_digits(s@));
                    assert(s@[0] != 45);
                }
            }
            return None;
        }
        let d: i64 = (b - 48) as i64;
        proof {
            assert(digits.take(i - start + 1).drop_last() =~= digits.take(i - start));
            assert(digits.take(i - start + 1).last() == digits[i - start]);
            assert(digits[i - start] == s@[i as int]);
        }
        if acc > (i64::MAX - d) / 10 {
            proof {
                let k = i - start + 1;
                assert(all_digits(digits.take(k)));
                assert(digits_value(digits.take(k)) == acc * 10 + d);
                assert(digits_value(digits.take(k)) > i64::MAX);
                if all_digits(digits) {
                    lemma_digits_prefix_le(digits, k);
                    assert(digits_value(digits) > i64::MAX);
                }
                if negative {
                    assert(!is_digit(s@[0]));
                    assert(!all_digits(s@));
                } else {
                    assert(s@[0] != 45);
                }
            }
            return None;
        }
        acc = acc * 10 + d;
        i = i + 1;
    }
    proof {
        assert(digits.take(s@.len() - start) =~= digits);
    }
    if negative {
        Some(-acc)
    } else {
        Some(acc)
    }
}

proof fn lemma_nat_rep_digits(n: int)
    requires
        n >= 0,
    ensures
        all_digits(nat_rep(n)),
        nat_rep(n).len() >= 1,
        digits_value(nat_rep(n)) == n,
    decreases n,
{
    if n <= 0 {
        assert(digits_value(seq![48u8].drop_last()) == 0);
    } else if n < 10 {
        assert(digits_value(seq![(48 + n) as u8].drop_last()) == 0);
    } else {
        lemma_nat_rep_digits(n / 10);
        let s = nat_rep(n);
        assert(s.drop_last() =~= nat_rep(n / 10));
        assert(s.last() == (48 + n % 10) as u8);
    }
}

/// The canonical form of any `i64` above `i64::MIN` parses back to itself.
pub proof fn lemma_number_roundtrip(n: int)
    requires
        -i64::MAX <= n <= i64::MAX,
    ensures
        valid_number(int_rep(n)),
        number_value(int_rep(n)) == n,
{
    if n < 0 {
        lemma_nat_rep_digits(-n);
        let s = int_rep(n);
        assert(s.skip(1) =~= nat_rep(-n));
        assert(s[0] == 45);
    } else {
        lemma_nat_rep_digits(n);
        let s = int_rep(n);
        assert(s[0] != 45) by {
            lemma_nat_rep_first_digit(n);
        }
    }
}

/// The first byte of a digit string is a digit; usable by the map format
/// proofs.
pub(crate) proof fn lemma_nat_rep_first_digit_pub(n: int)
    requires
        n >= 0,
    ensures
        is_digit(nat_rep(n)[0]),
        nat_rep(n).len() >= 1,
{
    lemma_nat_rep_first_digit(n);
}

proof fn lemma_nat_rep_first_digit(n: int)
    requires
        n >= 0,
    ensures
        is_digit(nat_rep(n)[0]),
        nat_rep(n).len() >= 1,
    decreases n,
{
    if n >= 10 {
        lemma_nat_rep_first_digit(n / 10);
        assert(nat_rep(n)[0] == nat_rep(n / 10)[0]);
    }
}

/// First index at or after `i` where `sep` occurs in `s`, or `s.len()`.
pub open spec fn sep_from(s: Seq<u8>, sep: u8, i: int) -> int
    decreases s.len() - i,
{
    if i < 0 || i >= s.len() {
        s.len() as int
    } else if s[i] == sep {
        i
    } else {
        sep_from(s, sep, i + 1)
    }
}

/// The fields of `s` from position `i` on, split at `sep`; always at least
/// one field, and one more field per separator.
pub open spec fn split_from(s: Seq<u8>, sep: u8, i: int) -> Seq<Seq<u8>>
    decreases s.len() - i,
    via split_from_decreases
{
    let j = sep_from(s, sep, i);
    if i < 0 || j >= s.len() {
        seq![s.subrange(if 0 <= i <= s.len() { i } else { s.len() as int }, s.len() as int)]
    } else {
        seq![s.subrange(i, j)] + split_from(s, sep, j + 1)
    }
}

/// All fields of `s`, split at `sep`.
pub open spec fn split_bytes(s: Seq<u8>, sep: u8) -> Seq<Seq<u8>> {
    split_from(s, sep, 0)
}

/// The fields joined with `sep` between them.
pub open spec fn join_bytes(fs: Seq<Seq<u8>>, sep: u8) -> Seq<u8>
    decreases fs.len(),
{
    if fs.len() == 0 {
        Seq::empty()
    } else if fs.len() == 1 {
        fs[0]
    } else {
        fs[0] + seq![sep] + join_bytes(fs.drop_first(), sep)
    }
}

#[via_fn]
proof fn split_from_decreases(s: Seq<u8>, sep: u8, i: int) {
    if 0 <= i <= s.len() {
        lemma_sep_from_props(s, sep, i);
    }
}

/// Where `sep_from` points: at or after `i`, inside the string only on a
/// separator, with none before it.
pub(crate) proof fn lemma_sep_from_props(s: Seq<u8>, sep: u8, i: int)
    requires
        0 <= i <= s.len(),
    ensures
        i <= sep_from(s, sep, i) <= s.len(),
        sep_from(s, sep, i) < s.len() ==> s[sep_from(s, sep, i)] == sep,
        forall|k: int| i <= k < sep_from(s, sep, i) ==> s[k] != sep,
    decreases s.len() - i,
{
    if i < s.len() && s[i] != sep {
        lemma_sep_from_props(s, sep, i + 1);
    }
}

proof fn lemma_sep_from_none(s: Seq<u8>, sep: u8, i: int)
    requires
        0 <= i <= s.len(),
        forall|k: int| i <= k < s.len() ==> s[k] != sep,
    ensures
        sep_from(s, sep, i) == s.len(),
    decreases s.len() - i,
{
    if i < s.len() {
        lemma_sep_from_none(s, sep, i + 1);
    }
}

proof fn lemma_sep_from_found(s: Seq<u8>, sep: u8, i: int, j: int)
    requires
        0 <= i <= j < s.len(),
        s[j] == sep,
        forall|k: int| i <= k < j ==> s[k] != sep,
    ensures
        sep_from(s, sep, i) == j,
    decreases j - i,
{
    if i < j {
        lemma_sep_from_found(s, sep, i + 1, j);
    }
}

/// Splitting starts over independently of what lies before the start
/// position: the fields of `a + b` from `a.len() + k` are the fields of `b`
/// from `k`.
proof fn lemma_split_shift(a: Seq<u8>, b: Seq<u8>, sep: u8, k: int)
    requires
        0 <= k <= b.len(),
    ensures
        split_from(a + b, sep, a.len() + k) == split_from(b, sep, k),
    decreases b.len() - k,
{
    let s = a + b;
    let j2 = sep_from(b, sep, k);
    lemma_sep_from_props(b, sep, k);
    assert(forall|t: int| 0 <= t < b.len() ==> s[a.len() + t] == b[t]);
    if j2 >= b.len() {
        assert(forall|t: int| a.len() + k <= t < s.len() ==> s[t] != sep) by {
            assert(forall|t: int|
                a.len() + k <= t < s.len() ==> s[t] == b[t - a.len()] && k <= t - a.len()
                    < b.len());
        }
        lemma_sep_from_none(s, sep, a.len() + k);
        assert(s.subrange(a.len() + k, s.len() as int) =~= b.subrange(k, b.len() as int));
        assert(split_from(s, sep, a.len() + k) =~= split_from(b, sep, k));
    } else {
        assert(s[a.len() + j2] == sep);
        assert(forall|t: int| a.len() + k <= t < a.len() + j2 ==> s[t] != sep) by {
            assert(forall|t: int|
                a.len() + k <= t < a.len() + j2 ==> s[t] == b[t - a.len()] && k <= t - a.len()
                    < j2);
        }
        lemma_sep_from_found(s, sep, a.len() + k, a.len() + j2);
        assert(s.subrange(a.len() + k, a.len() + j2) =~= b.subrange(k, j2));
        lemma_split_shift(a, b, sep, j2 + 1);
        assert(split_from(s, sep, a.len() + k) =~= seq![b.subrange(k, j2)] + split_from(
            b,
            sep,
            j2 + 1,
        ));
        assert(split_from(b, sep, k) =~= seq![b.subrange(k, j2)] + split_from(b, sep, j2 + 1));
    }
}

/// Joining fields that hold no separator and splitting again returns the
/// same fields.
pub proof fn lemma_split_join(fs: Seq<Seq<u8>>, sep: u8)
    requires
        fs.len() >= 1,
        forall|i: int, k: int|
            0 <= i < fs.len() && 0 <= k < fs[i].len() ==> (#[trigger] fs[i][k]) != sep,
    ensures
        split_bytes(join_bytes(fs, sep), sep) == fs,
    decreases fs.len(),
{
    let s = join_bytes(fs, sep);
    if fs.len() == 1 {
        assert(s == fs[0]);
        lemma_sep_from_none(s, sep, 0);
        assert(s.subrange(0, s.len() as int) =~= s);
        assert(split_bytes(s, sep) =~= seq![fs[0]]);
        assert(split_bytes(s, sep) =~= fs);
    } else {
        let head = fs[0];
        let rest = fs.drop_first();
        let tail = join_bytes(rest, sep);
        assert(s == head + seq![sep] + tail);
        let l0 = head.len() as int;
        assert(forall|t: int| 0 <= t < l0 ==> s[t] == head[t]);
        assert(s[l0] == sep);
        lemma_sep_from_found(s, sep, 0, l0);
        assert(s.subrange(0, l0) =~= head);
        assert((head + seq![sep]) + tail =~= head + seq![sep] + tail);
        lemma_split_shift(head + seq![sep], tail, sep, 0);
        assert(split_from(s, sep, l0 + 1) == split_from(tail, sep, 0));
        lemma_split_join(rest, sep);
        assert(split_bytes(s, sep) =~= seq![head] + split_bytes(tail, sep));
        assert(seq![head] + rest =~= fs);
    }
}

/// Splits a byte string at every occurrence of `sep`.
pub fn split_fields(s: &[u8], sep: u8) -> (r: Vec<Vec<u8>>)
    ensures
        r@.map_values(|f: Vec<u8>| f@) == split_bytes(s@, sep),
        r@.len() >= 1,
{
    let mut fields: Vec<Vec<u8>> = Vec::new();
    let mut cur: Vec<u8> = Vec::new();
    let mut start: usize = 0;
    let mut i: usize = 0;
    proof {
        assert(s@.subrange(0, 0) =~= Seq::<u8>::empty());
    }
    while i < s.len()
        invariant
            0 <= start <= i <= s@.len(),
            cur@ == s@.subrange(start as int, i as int),
            sep_from(s@, sep, start as int) == sep_from(s@, sep, i as int),
            split_bytes(s@, sep) == fields@.map_values(|f: Vec<u8>| f@) + split_from(
                s@,
                sep,
                start as int,
            ),
        decreases s@.len() - i,
    {
        let b = s[i];
        if b == sep {
            proof {
                assert(sep_from(s@, sep, i as int) == i);
                assert(s@.subrange(start as int, i as int) == cur@);
            }
            fields.push(cur);
            cur = Vec::new();
            proof {
                assert(split_from(s@, sep, start as int) =~= seq![
                    s@.subrange(start as int, i as int),
                ] + split_from(s@, sep, i + 1));
                assert(fields@.map_values(|f: Vec<u8>| f@) =~= fields@.drop_last().map_values(
                    |f: Vec<u8>| f@,
                ).push(cur@.subrange(0, 0) + s@.subrange(start as int, i as int)));
                assert(s@.subrange(i + 1, i + 1) =~= Seq::<u8>::empty());
            }
            start = i + 1;
        } else {
            cur.push(b);
            proof {
                assert(s@.subrange(start as int, i + 1) =~= s@.subrange(start as int, i as int)
                    .push(s@[i as int]));
                assert(sep_from(s@, sep, i as int) == sep_from(s@, sep, i + 1));
            }
        }
        i = i + 1;
    }
    proof {
        lemma_sep_from_none(s@, sep, i as int);
        assert(sep_from(s@, sep, start as int) == s@.len());
        assert(split_from(s@, sep, start as int) =~= seq![
            s@.subrange(start as int, s@.len() as int),
        ]);
        assert(s@.subrange(start as int, s@.len() as int) == cur@);
    }
    fields.push(cur);
    proof {
        assert(fields@.map_values(|f: Vec<u8>| f@) =~= fields@.drop_last().map_values(
            |f: Vec<u8>| f@,
        ).push(fields@.last()@));
        assert(fields@.map_values(|f: Vec<u8>| f@) =~= split_bytes(s@, sep));
    }
    fields
}

/// Writes the canonical decimal form of `n` (digits, with a leading minus
/// sign when negative) to the end of `out`.
pub fn format_i64(n: i64, out: &mut Vec<u8>)
    requires
        n > i64::MIN,
    ensures
        final(out)@ == old(out)@ + int_rep(n as int),
{
    let ghost out0 = out@;
    let mut mag: i64 = n;
    if n < 0 {
        out.push(45);
        mag = -n;
    }
    let mut digits: Vec<u8> = Vec::new();
    if mag == 0 {
        digits.push(48);
    }
    let ghost m0 = mag as int;
    while mag > 0
        invariant
            0 <= mag <= m0,
            m0 > 0 ==> (if mag > 0 {
                nat_rep(m0) =~= nat_rep(mag as int) + digits@
            } else {
                nat_rep(m0) =~= digits@
            }),
            m0 == 0 ==> digits@ =~= nat_rep(0) && mag == 0,
        decreases mag,
    {
        let d: u8 = 48 + (mag % 10) as u8;
        digits.insert(0, d);
        proof {
            if mag >= 10 {
                assert(nat_rep(mag as int) =~= nat_rep(mag as int / 10).push(
                    (48 + mag as int % 10) as u8,
                ));
                assert(nat_rep(mag as int / 10).push((48 + mag as int % 10) as u8) + digits@.drop_first()
                    =~= nat_rep(mag as int / 10) + digits@);
            } else {
                assert(nat_rep(mag as int) =~= seq![d]);
            }
        }
        mag = mag / 10;
    }
    let mut j: usize = 0;
    while j < digits.len()
        invariant
            j <= digits@.len(),
            n < 0 ==> out@ =~= out0 + seq![45u8] + digits@.take(j as int),
            n >= 0 ==> out@ =~= out0 + digits@.take(j as int),
            digits@ =~= nat_rep(if n < 0 {
                -(n as int)
            } else {
                n as int
            }),
        decreases digits@.len() - j,
    {
        out.push(digits[j]);
        proof {
            assert(digits@.take(j + 1) =~= digits@.take(j as int).push(digits@[j as int]));
        }
        j = j + 1;
    }
    proof {
        assert(digits@.take(digits@.len() as int) =~= digits@);
        if n < 0 {
            assert(int_rep(n as int) =~= seq![45u8] + nat_rep(-(n as int)));
            assert(out@ =~= out0 + int_rep(n as int));
        }
    }
}

} // verus!

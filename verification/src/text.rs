//! The text form of shares and commitments.
//!
//! A share is written `x,y`, two decimal numerals with a comma between
//! them. Several shares are joined by `;`. Commitments are decimal numerals
//! joined by `,`. White space around a share and around a numeral is passed
//! over.

use crate::bignum::{big_parse_decimal, decimal_value, is_decimal, value, values};
use crate::error::Error;
use crate::lagrange::{share_xs, share_ys};
use num_bigint::BigUint;
use vstd::prelude::*;

verus! {

/// The byte that stands between two shares.
pub const SHARE_SEPARATOR: u8 = 0x3b;

/// The byte that stands between the two numbers of a share, and between two
/// commitments.
pub const NUMBER_SEPARATOR: u8 = 0x2c;

/// Whether a byte is ASCII white space.
pub open spec fn is_space(b: u8) -> bool {
    b == 0x20 || 0x09 <= b <= 0x0d
}

/// A byte string without the white space in front of it.
pub open spec fn trim_start(s: Seq<u8>) -> Seq<u8>
    decreases s.len(),
{
    if s.len() > 0 && is_space(s[0]) {
        trim_start(s.drop_first())
    } else {
        s
    }
}

/// A byte string without the white space behind it.
pub open spec fn trim_end(s: Seq<u8>) -> Seq<u8>
    decreases s.len(),
{
    if s.len() > 0 && is_space(s.last()) {
        trim_end(s.drop_last())
    } else {
        s
    }
}

/// A byte string without the white space around it.
pub open spec fn trim(s: Seq<u8>) -> Seq<u8> {
    trim_end(trim_start(s))
}

/// The length of the first field of `s`: the number of bytes before the
/// first separator, or all of them.
pub open spec fn field_len(s: Seq<u8>, sep: u8) -> nat
    decreases s.len(),
{
    if s.len() == 0 || s[0] == sep {
        0
    } else {
        1 + field_len(s.drop_first(), sep)
    }
}

/// The fields of `s`: the stretches between its separators. There is one
/// more field than there are separators, and a field can be empty.
pub open spec fn split_on(s: Seq<u8>, sep: u8) -> Seq<Seq<u8>>
    decreases s.len(),
{
    let k = field_len(s, sep) as int;
    if k >= s.len() {
        seq![s]
    } else {
        seq![s.take(k)] + split_on(s.skip(k + 1), sep)
    }
}

/// The byte strings that a sequence of vectors holds.
pub open spec fn views(v: Seq<Vec<u8>>) -> Seq<Seq<u8>> {
    Seq::new(v.len(), |i: int| v[i]@)
}

/// The two parts of a share: what stands around the commas of the trimmed
/// text.
pub open spec fn share_parts(field: Seq<u8>) -> Seq<Seq<u8>> {
    split_on(trim(field), NUMBER_SEPARATOR)
}

/// Whether `field` is the text of a share.
pub open spec fn is_share(field: Seq<u8>) -> bool {
    &&& share_parts(field).len() == 2
    &&& is_decimal(trim(share_parts(field)[0]))
    &&& is_decimal(trim(share_parts(field)[1]))
}

/// The `x` of the share that `field` is the text of.
pub open spec fn share_x(field: Seq<u8>) -> nat {
    decimal_value(trim(share_parts(field)[0]))
}

/// The `y` of the share that `field` is the text of.
pub open spec fn share_y(field: Seq<u8>) -> nat {
    decimal_value(trim(share_parts(field)[1]))
}

/// Whether `text` is the text of shares, joined by `;`.
pub open spec fn are_shares(text: Seq<u8>) -> bool {
    forall|i: int|
        0 <= i < split_on(text, SHARE_SEPARATOR).len() ==> is_share(
            #[trigger] split_on(text, SHARE_SEPARATOR)[i],
        )
}

/// The `x` of the shares that `text` is the text of.
pub open spec fn text_xs(text: Seq<u8>) -> Seq<nat> {
    let fields = split_on(text, SHARE_SEPARATOR);
    Seq::new(fields.len(), |i: int| share_x(fields[i]))
}

/// The `y` of the shares that `text` is the text of.
pub open spec fn text_ys(text: Seq<u8>) -> Seq<nat> {
    let fields = split_on(text, SHARE_SEPARATOR);
    Seq::new(fields.len(), |i: int| share_y(fields[i]))
}

/// Whether `text` is the text of commitments, joined by `,`.
pub open spec fn are_commitments(text: Seq<u8>) -> bool {
    forall|i: int|
        0 <= i < split_on(text, NUMBER_SEPARATOR).len() ==> is_decimal(
            trim(#[trigger] split_on(text, NUMBER_SEPARATOR)[i]),
        )
}

/// The commitments that `text` is the text of.
pub open spec fn text_commitments(text: Seq<u8>) -> Seq<nat> {
    let fields = split_on(text, NUMBER_SEPARATOR);
    Seq::new(fields.len(), |i: int| decimal_value(trim(fields[i])))
}

/// Where the first separator stands, the first field ends.
proof fn lemma_field_len(s: Seq<u8>, sep: u8, k: int)
    requires
        0 <= k <= s.len(),
        forall|i: int| 0 <= i < k ==> s[i] != sep,
        k == s.len() || s[k] == sep,
    ensures
        field_len(s, sep) == k,
    decreases k,
{
    if k > 0 {
        lemma_field_len(s.drop_first(), sep, k - 1);
    }
}

/// Every text has a first field.
pub proof fn lemma_split_on_nonempty(s: Seq<u8>, sep: u8)
    ensures
        split_on(s, sep).len() >= 1,
{
}

/// Whether `b` is ASCII white space.
fn is_space_byte(b: u8) -> (r: bool)
    ensures
        r == is_space(b),
{
    b == 0x20 || (0x09 <= b && b <= 0x0d)
}

/// The bytes of `text` from `from` up to `to`.
fn copy_range(text: &[u8], from: usize, to: usize) -> (r: Vec<u8>)
    requires
        from <= to <= text@.len(),
    ensures
        r@ == text@.subrange(from as int, to as int),
{
    let mut out: Vec<u8> = Vec::new();
    let mut i: usize = from;
    while i < to
        invariant
            from <= i <= to <= text@.len(),
            out@ == text@.subrange(from as int, i as int),
        decreases to - i,
    {
        out.push(text[i]);
        i = i + 1;
        proof {
            assert(out@ =~= text@.subrange(from as int, i as int));
        }
    }
    out
}

/// `text` without the white space around it.
pub fn trim_bytes(text: &[u8]) -> (r: Vec<u8>)
    ensures
        r@ == trim(text@),
{
    let n = text.len();
    let mut a: usize = 0;
    proof {
        assert(text@.skip(0) =~= text@);
    }
    while a < n && is_space_byte(text[a])
        invariant
            a <= n,
            n == text@.len(),
            trim_start(text@) == trim_start(text@.skip(a as int)),
        decreases n - a,
    {
        proof {
            assert(text@.skip(a as int).drop_first() =~= text@.skip(a + 1));
        }
        a = a + 1;
    }
    proof {
        assert(trim_start(text@.skip(a as int)) == text@.skip(a as int));
        assert(text@.skip(a as int) =~= text@.subrange(a as int, n as int));
    }
    let mut b: usize = n;
    while b > a && is_space_byte(text[b - 1])
        invariant
            a <= b <= n,
            n == text@.len(),
            trim(text@) == trim_end(text@.subrange(a as int, b as int)),
        decreases b,
    {
        proof {
            assert(text@.subrange(a as int, b as int).drop_last() =~= text@.subrange(
                a as int,
                b - 1,
            ));
        }
        b = b - 1;
    }
    copy_range(text, a, b)
}

/// The fields of `text` between the separators `sep`, in order.
pub fn split_bytes(text: &[u8], sep: u8) -> (r: Vec<Vec<u8>>)
    ensures
        views(r@) == split_on(text@, sep),
{
    let n = text.len();
    let mut fields: Vec<Vec<u8>> = Vec::new();
    let mut from: usize = 0;
    let mut i: usize = 0;
    proof {
        assert(text@.skip(0) =~= text@);
        assert(views(fields@) + split_on(text@, sep) =~= split_on(text@, sep));
    }
    while i < n
        invariant
            from <= i <= n,
            n == text@.len(),
            forall|j: int| from <= j < i ==> text@[j] != sep,
            split_on(text@, sep) == views(fields@) + split_on(text@.skip(from as int), sep),
        decreases n - i,
    {
        if text[i] == sep {
            let field = copy_range(text, from, i);
            proof {
                let s = text@.skip(from as int);
                let k = i - from;
                lemma_field_len(s, sep, k);
                assert(s.take(k) =~= field@);
                assert(s.skip(k + 1) =~= text@.skip(i + 1));
                let done = views(fields@);
                assert(views(fields@.push(field)) =~= done + seq![field@]);
                assert(done + (seq![field@] + split_on(text@.skip(i + 1), sep)) =~= (done
                    + seq![field@]) + split_on(text@.skip(i + 1), sep));
            }
            fields.push(field);
            from = i + 1;
        }
        i = i + 1;
    }
    let last = copy_range(text, from, n);
    proof {
        let s = text@.skip(from as int);
        lemma_field_len(s, sep, n - from);
        assert(s =~= last@);
        assert(views(fields@.push(last)) =~= views(fields@) + seq![last@]);
    }
    fields.push(last);
    fields
}

/// The number that `text` is the decimal numeral of, white space around it
/// passed over; nothing where it is no numeral.
pub fn parse_number(text: &[u8]) -> (r: Option<BigUint>)
    ensures
        r is Some <==> is_decimal(trim(text@)),
        r matches Some(n) ==> value(n) == decimal_value(trim(text@)),
{
    let trimmed = trim_bytes(text);
    big_parse_decimal(trimmed.as_slice())
}

/// The share that `field` is the text of, or `MalformedShare`.
pub fn parse_share(field: &[u8]) -> (r: Result<(BigUint, BigUint), Error>)
    ensures
        r is Ok <==> is_share(field@),
        r matches Ok(share) ==> value(share.0) == share_x(field@) && value(share.1) == share_y(
            field@,
        ),
        r matches Err(e) ==> e == Error::MalformedShare,
{
    let trimmed = trim_bytes(field);
    let parts = split_bytes(trimmed.as_slice(), NUMBER_SEPARATOR);
    proof {
        assert(views(parts@) == share_parts(field@));
    }
    if parts.len() != 2 {
        return Err(Error::MalformedShare);
    }
    proof {
        assert(views(parts@)[0] == parts@[0]@);
        assert(views(parts@)[1] == parts@[1]@);
    }
    let x = match parse_number(parts[0].as_slice()) {
        Some(v) => v,
        None => {
            return Err(Error::MalformedShare);
        },
    };
    let y = match parse_number(parts[1].as_slice()) {
        Some(v) => v,
        None => {
            return Err(Error::MalformedShare);
        },
    };
    Ok((x, y))
}

/// The shares that `text` is the text of, in order, or `MalformedShare`
/// where a field of it is no share.
pub fn parse_shares(text: &[u8]) -> (r: Result<Vec<(BigUint, BigUint)>, Error>)
    ensures
        r is Ok <==> are_shares(text@),
        r matches Ok(shares) ==> share_xs(shares@) == text_xs(text@) && share_ys(shares@)
            == text_ys(text@),
        r matches Err(e) ==> e == Error::MalformedShare,
{
    let fields = split_bytes(text, SHARE_SEPARATOR);
    let ghost spec_fields = split_on(text@, SHARE_SEPARATOR);
    let mut shares: Vec<(BigUint, BigUint)> = Vec::new();
    let n = fields.len();
    let mut i: usize = 0;
    while i < n
        invariant
            i <= n,
            n == fields@.len(),
            views(fields@) == spec_fields,
            spec_fields == split_on(text@, SHARE_SEPARATOR),
            shares@.len() == i,
            forall|k: int| 0 <= k < i ==> is_share(#[trigger] spec_fields[k]),
            forall|k: int|
                0 <= k < i ==> value((#[trigger] shares@[k]).0) == share_x(spec_fields[k]),
            forall|k: int|
                0 <= k < i ==> value((#[trigger] shares@[k]).1) == share_y(spec_fields[k]),
        decreases n - i,
    {
        proof {
            assert(views(fields@)[i as int] == fields@[i as int]@);
        }
        match parse_share(fields[i].as_slice()) {
            Ok(share) => {
                shares.push(share);
            },
            Err(e) => {
                proof {
                    assert(!is_share(spec_fields[i as int]));
                }
                return Err(e);
            },
        }
        i = i + 1;
    }
    proof {
        assert(share_xs(shares@) =~= text_xs(text@));
        assert(share_ys(shares@) =~= text_ys(text@));
    }
    Ok(shares)
}

/// The commitments that `text` is the text of, in order, or
/// `MalformedCommitment` where a field of it is no numeral.
pub fn parse_commitments(text: &[u8]) -> (r: Result<Vec<BigUint>, Error>)
    ensures
        r is Ok <==> are_commitments(text@),
        r matches Ok(commitments) ==> values(commitments@) == text_commitments(text@),
        r matches Err(e) ==> e == Error::MalformedCommitment,
{
    let fields = split_bytes(text, NUMBER_SEPARATOR);
    let ghost spec_fields = split_on(text@, NUMBER_SEPARATOR);
    let mut out: Vec<BigUint> = Vec::new();
    let n = fields.len();
    let mut i: usize = 0;
    while i < n
        invariant
            i <= n,
            n == fields@.len(),
            views(fields@) == spec_fields,
            spec_fields == split_on(text@, NUMBER_SEPARATOR),
            out@.len() == i,
            forall|k: int| 0 <= k < i ==> is_decimal(trim(#[trigger] spec_fields[k])),
            forall|k: int|
                0 <= k < i ==> value(#[trigger] out@[k]) == decimal_value(trim(spec_fields[k])),
        decreases n - i,
    {
        proof {
            assert(views(fields@)[i as int] == fields@[i as int]@);
        }
        match parse_number(fields[i].as_slice()) {
            Some(c) => {
                out.push(c);
            },
            None => {
                proof {
                    assert(!is_decimal(trim(spec_fields[i as int])));
                }
                return Err(Error::MalformedCommitment);
            },
        }
        i = i + 1;
    }
    proof {
        assert(values(out@) =~= text_commitments(text@));
    }
    Ok(out)
}

} // verus!

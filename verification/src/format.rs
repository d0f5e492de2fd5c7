use vstd::prelude::*;

verus! {

/// Lines longer than this many bytes are shortened when truncation is on.
pub const TRUNCATE_AT: usize = 80;

/// How many bytes of a long line survive truncation, before the ellipsis.
pub const TRUNCATE_KEEP: usize = 77;

/// The three ASCII dots appended to a truncated line.
pub open spec fn ellipsis() -> Seq<u8> {
    seq![46u8, 46u8, 46u8]
}

/// A UTF-8 continuation byte: the second and later bytes of a multi-byte
/// character.
pub open spec fn is_continuation(b: u8) -> bool {
    128 <= b < 192
}

/// The largest position at or before `k` that does not fall on a UTF-8
/// continuation byte: the nearest code-point boundary not past `k`, so
/// that truncation never splits a multi-byte character.
pub open spec fn boundary_at_or_before(line: Seq<u8>, k: nat) -> nat
    decreases k,
{
    if k == 0 {
        0
    } else if !is_continuation(line[k as int]) {
        k
    } else {
        boundary_at_or_before(line, (k - 1) as nat)
    }
}

/// The cut is at or before `k`, starts a code point unless it is forced
/// to 0, and everything between the cut and `k` is continuation bytes —
/// the cut is the nearest boundary.
pub proof fn lemma_boundary_props(line: Seq<u8>, k: nat)
    ensures
        boundary_at_or_before(line, k) <= k,
        boundary_at_or_before(line, k) > 0 ==> !is_continuation(
            line[boundary_at_or_before(line, k) as int],
        ),
        forall|j: int|
            boundary_at_or_before(line, k) < j <= k ==> is_continuation(#[trigger] line[j]),
    decreases k,
{
    if k == 0 {
    } else if !is_continuation(line[k as int]) {
    } else {
        lemma_boundary_props(line, (k - 1) as nat);
    }
}

/// Decimal digits of `n`, most significant first, as ASCII bytes.
pub open spec fn dec_digits(n: nat) -> Seq<u8>
    decreases n,
{
    if n < 10 {
        seq![(48 + n) as u8]
    } else {
        dec_digits(n / 10).push((48 + n % 10) as u8)
    }
}

/// `n` ASCII spaces.
pub open spec fn spaces(n: nat) -> Seq<u8> {
    Seq::new(n, |i: int| 32u8)
}

/// `s` padded on the left with ASCII spaces to at least 6 bytes.
pub open spec fn right_align_6(s: Seq<u8>) -> Seq<u8> {
    if s.len() >= 6 {
        s
    } else {
        spaces((6 - s.len()) as nat) + s
    }
}

/// The line-number prefix: the 1-based number `n`, right-aligned to
/// 6 columns, followed by one space.
pub open spec fn number_prefix(n: nat) -> Seq<u8> {
    right_align_6(dec_digits(n)).push(32u8)
}

/// The body of an emitted line: the line itself, unless truncation is on
/// and the line is longer than 80 bytes, in which case its prefix up to
/// the code-point boundary nearest to (at or before) byte 77, followed by
/// "...". On a line whose byte 77 starts a code point — every ASCII line —
/// that is exactly the first 77 bytes.
pub open spec fn line_body(line: Seq<u8>, truncate: bool) -> Seq<u8> {
    if truncate && line.len() > TRUNCATE_AT {
        line.take(boundary_at_or_before(line, TRUNCATE_KEEP as nat) as int) + ellipsis()
    } else {
        line
    }
}

/// The full emitted form of the line at 1-based position `n`: the optional
/// line-number prefix followed by the (possibly truncated) body.
pub open spec fn rendered(line: Seq<u8>, n: nat, line_numbers: bool, truncate: bool) -> Seq<u8> {
    if line_numbers {
        number_prefix(n) + line_body(line, truncate)
    } else {
        line_body(line, truncate)
    }
}

/// A truncated body is the kept prefix plus the 3-byte ellipsis: at most
/// 80 bytes, and exactly the first 77 bytes plus "...", 80 bytes in all,
/// whenever byte 77 starts a code point (in particular on ASCII lines).
pub proof fn lemma_truncated_body_len(line: Seq<u8>, truncate: bool)
    requires
        truncate,
        line.len() > TRUNCATE_AT,
    ensures
        line_body(line, truncate) == line.take(
            boundary_at_or_before(line, TRUNCATE_KEEP as nat) as int,
        ) + ellipsis(),
        boundary_at_or_before(line, TRUNCATE_KEEP as nat) <= TRUNCATE_KEEP,
        line_body(line, truncate).len() <= TRUNCATE_AT,
        !is_continuation(line[TRUNCATE_KEEP as int]) ==> line_body(line, truncate) == line.take(
            TRUNCATE_KEEP as int,
        ) + ellipsis() && line_body(line, truncate).len() == TRUNCATE_AT,
{
    lemma_boundary_props(line, TRUNCATE_KEEP as nat);
}

/// Every number prefix is at least 7 bytes: 6 columns plus the space.
pub proof fn lemma_number_prefix_len(n: nat)
    ensures
        number_prefix(n).len() >= 7,
        number_prefix(n).len() == 7 <==> dec_digits(n).len() <= 6,
{
}

/// Decimal digits of `n`, most significant first.
fn to_decimal(n: usize) -> (r: Vec<u8>)
    ensures
        r@ == dec_digits(n as nat),
    decreases n,
{
    if n < 10 {
        let mut r: Vec<u8> = Vec::new();
        r.push(48 + n as u8);
        r
    } else {
        let mut r = to_decimal(n / 10);
        r.push(48 + (n % 10) as u8);
        r
    }
}

/// Append all of `src` onto `dst`.
fn push_all(dst: &mut Vec<u8>, src: &[u8])
    ensures
        final(dst)@ == old(dst)@ + src@,
{
    let mut j: usize = 0;
    while j < src.len()
        invariant
            j <= src@.len(),
            dst@ == old(dst)@ + src@.take(j as int),
        decreases src@.len() - j,
    {
        dst.push(src[j]);
        j = j + 1;
        proof {
            assert(dst@ =~= old(dst)@ + src@.take(j as int));
        }
    }
    proof {
        assert(dst@ =~= old(dst)@ + src@);
    }
}

/// Where a long line is cut: the code-point boundary nearest to (at or
/// before) byte 77.
fn cut_point(line: &Vec<u8>) -> (k: usize)
    requires
        line@.len() > TRUNCATE_AT,
    ensures
        k as nat == boundary_at_or_before(line@, TRUNCATE_KEEP as nat),
        k <= TRUNCATE_KEEP,
{
    let mut k: usize = TRUNCATE_KEEP;
    while k > 0 && 128 <= line[k] && line[k] < 192
        invariant
            k <= TRUNCATE_KEEP,
            line@.len() > TRUNCATE_AT,
            boundary_at_or_before(line@, TRUNCATE_KEEP as nat) == boundary_at_or_before(
                line@,
                k as nat,
            ),
        decreases k,
    {
        k = k - 1;
    }
    k
}

/// Render one line for emission: apply truncation, then the optional
/// right-aligned 6-column line-number prefix for 1-based position `n`.
pub fn format_line(line: &Vec<u8>, n: usize, line_numbers: bool, truncate: bool) -> (r: Vec<u8>)
    ensures
        r@ == rendered(line@, n as nat, line_numbers, truncate),
{
    let mut r: Vec<u8> = Vec::new();
    if line_numbers {
        let digits = to_decimal(n);
        let mut pad: usize = 0;
        if digits.len() < 6 {
            pad = 6 - digits.len();
        }
        let mut k: usize = 0;
        while k < pad
            invariant
                k <= pad,
                pad == if dec_digits(n as nat).len() < 6 {
                    6 - dec_digits(n as nat).len()
                } else {
                    0int
                },
                r@ == spaces(k as nat),
            decreases pad - k,
        {
            r.push(32);
            k = k + 1;
            proof {
                assert(r@ =~= spaces(k as nat));
            }
        }
        push_all(&mut r, digits.as_slice());
        r.push(32);
        proof {
            assert(r@ =~= number_prefix(n as nat));
        }
    }
    if truncate && line.len() > TRUNCATE_AT {
        let ghost before = r@;
        let cut = cut_point(line);
        let mut j: usize = 0;
        while j < cut
            invariant
                j <= cut,
                cut as nat == boundary_at_or_before(line@, TRUNCATE_KEEP as nat),
                cut <= TRUNCATE_KEEP,
                line@.len() > TRUNCATE_AT,
                r@ == before + line@.take(j as int),
            decreases cut - j,
        {
            r.push(line[j]);
            j = j + 1;
            proof {
                assert(r@ =~= before + line@.take(j as int));
            }
        }
        r.push(46);
        r.push(46);
        r.push(46);
        proof {
            assert(r@ =~= before + line_body(line@, truncate));
        }
    } else {
        push_all(&mut r, line.as_slice());
    }
    r
}

} // verus!

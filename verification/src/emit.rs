use vstd::prelude::*;

use crate::config::Config;
use crate::format::boundary_at_or_before;
use crate::format::ellipsis;
use crate::format::format_line;
use crate::format::is_continuation;
use crate::format::lemma_truncated_body_len;
use crate::format::line_body;
use crate::format::number_prefix;
use crate::format::rendered;
use crate::format::TRUNCATE_AT;
use crate::format::TRUNCATE_KEEP;
use crate::line_cost;

verus! {

/// One record of the emission trace: which line of the processed sequence
/// was shown, the cumulative byte count at the moment it was considered,
/// and its emitted form.
pub struct Emission {
    /// Zero-based position within the processed (possibly reversed) sequence.
    pub index: nat,
    /// Cumulative byte count (emitted and skipped lines, each charged its
    /// length plus one separator byte) before this line was considered.
    pub bytes_before: nat,
    /// The bytes written for this line, without the trailing newline.
    pub text: Seq<u8>,
}

/// The sequence the filters actually walk: the input lines, reversed first
/// when reverse mode is on.
pub open spec fn processed(lines: Seq<Seq<u8>>, c: Config) -> Seq<Seq<u8>> {
    if c.reverse {
        lines.reverse()
    } else {
        lines
    }
}

/// The emission trace from position `i` onwards, with `bytes` already
/// accumulated. Per candidate line, in this order: stop at the line limit,
/// stop once a configured byte budget is reached, silently consume lines
/// while a configured byte offset is not yet reached, otherwise emit the
/// rendered line; either way the byte count advances by the line's length
/// plus one separator byte.
pub open spec fn trace_from(lines: Seq<Seq<u8>>, c: Config, i: nat, bytes: nat) -> Seq<Emission>
    decreases lines.len() - i,
{
    if i >= lines.len() || i >= c.num_lines {
        Seq::empty()
    } else if c.num_bytes is Some && bytes >= c.num_bytes->0 {
        Seq::empty()
    } else if c.byte_offset is Some && bytes < c.byte_offset->0 {
        trace_from(lines, c, i + 1, bytes + line_cost(lines[i as int]))
    } else {
        seq![
            Emission {
                index: i,
                bytes_before: bytes,
                text: rendered(lines[i as int], i + 1, c.line_numbers, c.truncate),
            },
        ] + trace_from(lines, c, i + 1, bytes + line_cost(lines[i as int]))
    }
}

/// The full emission trace of a run over `lines` under `c`.
pub open spec fn trace(lines: Seq<Seq<u8>>, c: Config) -> Seq<Emission> {
    trace_from(processed(lines, c), c, 0, 0)
}

/// Just the emitted forms of a trace, in order.
pub open spec fn emission_texts(t: Seq<Emission>) -> Seq<Seq<u8>> {
    t.map_values(|e: Emission| e.text)
}

/// What a run over `lines` under `c` writes to standard output, one
/// element per emitted line, without the trailing newlines.
pub open spec fn emitted(lines: Seq<Seq<u8>>, c: Config) -> Seq<Seq<u8>> {
    emission_texts(trace(lines, c))
}

/// Everything the pipeline guarantees of a single trace entry produced
/// from position `i` onwards with `bytes` already accumulated: the entry
/// points at a real line within the limits, its text is that line's
/// rendered form, and its byte count respects the configured budget and
/// offset.
pub open spec fn entry_ok(lines: Seq<Seq<u8>>, c: Config, i: nat, bytes: nat, e: Emission) -> bool {
    &&& i <= e.index < lines.len()
    &&& e.index < c.num_lines
    &&& e.bytes_before >= bytes
    &&& e.text == rendered(lines[e.index as int], e.index + 1, c.line_numbers, c.truncate)
    &&& (c.num_bytes is Some ==> e.bytes_before < c.num_bytes->0)
    &&& (c.byte_offset is Some ==> e.bytes_before >= c.byte_offset->0)
}

proof fn lemma_trace_from_len(lines: Seq<Seq<u8>>, c: Config, i: nat, bytes: nat)
    ensures
        i < c.num_lines ==> i + trace_from(lines, c, i, bytes).len() <= c.num_lines,
        i >= c.num_lines ==> trace_from(lines, c, i, bytes).len() == 0,
    decreases lines.len() - i,
{
    if i >= lines.len() || i >= c.num_lines {
    } else if c.num_bytes is Some && bytes >= c.num_bytes->0 {
    } else {
        lemma_trace_from_len(lines, c, i + 1, bytes + line_cost(lines[i as int]));
    }
}

proof fn lemma_trace_from_entries(lines: Seq<Seq<u8>>, c: Config, i: nat, bytes: nat)
    ensures
        forall|j: int|
            0 <= j < trace_from(lines, c, i, bytes).len() ==> entry_ok(
                lines,
                c,
                i,
                bytes,
                #[trigger] trace_from(lines, c, i, bytes)[j],
            ),
    decreases lines.len() - i,
{
    let t = trace_from(lines, c, i, bytes);
    if i >= lines.len() || i >= c.num_lines {
    } else if c.num_bytes is Some && bytes >= c.num_bytes->0 {
    } else {
        let cost = line_cost(lines[i as int]);
        lemma_trace_from_entries(lines, c, i + 1, bytes + cost);
        let t2 = trace_from(lines, c, i + 1, bytes + cost);
        if c.byte_offset is Some && bytes < c.byte_offset->0 {
            assert forall|j: int| 0 <= j < t.len() implies entry_ok(
                lines,
                c,
                i,
                bytes,
                #[trigger] t[j],
            ) by {
                assert(entry_ok(lines, c, i + 1, bytes + cost, t2[j]));
            }
        } else {
            assert forall|j: int| 0 <= j < t.len() implies entry_ok(
                lines,
                c,
                i,
                bytes,
                #[trigger] t[j],
            ) by {
                if j > 0 {
                    assert(t[j] == t2[j - 1]);
                    assert(entry_ok(lines, c, i + 1, bytes + cost, t2[j - 1]));
                }
            }
        }
    }
}

/// The summed cost (length plus one separator byte) of the first `k`
/// lines.
pub open spec fn prefix_cost(lines: Seq<Seq<u8>>, k: nat) -> nat
    decreases k,
{
    if k == 0 {
        0
    } else {
        prefix_cost(lines, (k - 1) as nat) + line_cost(lines[k - 1])
    }
}

proof fn lemma_trace_from_prefix_cost(lines: Seq<Seq<u8>>, c: Config, i: nat, bytes: nat)
    requires
        bytes == prefix_cost(lines, i),
    ensures
        forall|j: int|
            0 <= j < trace_from(lines, c, i, bytes).len() ==> (#[trigger] trace_from(
                lines,
                c,
                i,
                bytes,
            )[j]).bytes_before == prefix_cost(lines, trace_from(lines, c, i, bytes)[j].index),
    decreases lines.len() - i,
{
    let t = trace_from(lines, c, i, bytes);
    if i >= lines.len() || i >= c.num_lines {
    } else if c.num_bytes is Some && bytes >= c.num_bytes->0 {
    } else {
        let cost = line_cost(lines[i as int]);
        assert(bytes + cost == prefix_cost(lines, i + 1));
        lemma_trace_from_prefix_cost(lines, c, i + 1, bytes + cost);
        let t2 = trace_from(lines, c, i + 1, bytes + cost);
        if c.byte_offset is Some && bytes < c.byte_offset->0 {
            assert forall|j: int| 0 <= j < t.len() implies (#[trigger] t[j]).bytes_before
                == prefix_cost(lines, t[j].index) by {
                assert(t2[j].bytes_before == prefix_cost(lines, t2[j].index));
            }
        } else {
            assert forall|j: int| 0 <= j < t.len() implies (#[trigger] t[j]).bytes_before
                == prefix_cost(lines, t[j].index) by {
                if j > 0 {
                    assert(t[j] == t2[j - 1]);
                    assert(t2[j - 1].bytes_before == prefix_cost(lines, t2[j - 1].index));
                }
            }
        }
    }
}

/// The cumulative byte count recorded at each emission is exactly the
/// summed cost of every line of the processed sequence before the emitted
/// one, skipped and emitted alike.
pub proof fn lemma_bytes_before_is_prefix_cost(lines: Seq<Seq<u8>>, c: Config)
    ensures
        forall|j: int|
            0 <= j < trace(lines, c).len() ==> (#[trigger] trace(lines, c)[j]).bytes_before
                == prefix_cost(processed(lines, c), trace(lines, c)[j].index),
{
    lemma_trace_from_prefix_cost(processed(lines, c), c, 0, 0);
}

/// The number of emitted lines never exceeds the configured line limit.
pub proof fn lemma_line_limit(lines: Seq<Seq<u8>>, c: Config)
    ensures
        emitted(lines, c).len() <= c.num_lines,
{
    lemma_trace_from_len(processed(lines, c), c, 0, 0);
}

/// With a byte budget configured, no line is emitted once the cumulative
/// byte count (emitted and skipped lines, separators included) has reached
/// the budget: every emission happens strictly below it. A single line may
/// carry the count past the budget, but nothing is emitted after that.
pub proof fn lemma_byte_limit(lines: Seq<Seq<u8>>, c: Config)
    requires
        c.num_bytes is Some,
    ensures
        forall|j: int|
            0 <= j < trace(lines, c).len() ==> (#[trigger] trace(lines, c)[j]).bytes_before
                < c.num_bytes->0,
{
    lemma_trace_from_entries(processed(lines, c), c, 0, 0);
}

/// With a byte offset configured, no line is emitted until the cumulative
/// byte count has reached the offset.
pub proof fn lemma_byte_offset(lines: Seq<Seq<u8>>, c: Config)
    requires
        c.byte_offset is Some,
    ensures
        forall|j: int|
            0 <= j < trace(lines, c).len() ==> (#[trigger] trace(lines, c)[j]).bytes_before
                >= c.byte_offset->0,
{
    lemma_trace_from_entries(processed(lines, c), c, 0, 0);
}

/// With line numbers on, every emitted line is the 1-based position of its
/// line within the processed (possibly reversed) sequence, right-aligned
/// to 6 columns and followed by a space, then that line's body.
pub proof fn lemma_line_numbering(lines: Seq<Seq<u8>>, c: Config)
    requires
        c.line_numbers,
    ensures
        forall|j: int|
            0 <= j < trace(lines, c).len() ==> {
                &&& (#[trigger] trace(lines, c)[j]).index < processed(lines, c).len()
                &&& trace(lines, c)[j].text == number_prefix(trace(lines, c)[j].index + 1)
                    + line_body(
                    processed(lines, c)[trace(lines, c)[j].index as int],
                    c.truncate,
                )
            },
{
    lemma_trace_from_entries(processed(lines, c), c, 0, 0);
}

/// With truncation on and line numbers off, any line longer than 80 bytes
/// is emitted as its prefix up to the code-point boundary nearest to (at
/// or before) byte 77, followed by "...": at most 80 bytes, and exactly
/// the first 77 bytes plus "...", 80 bytes in all, whenever byte 77
/// starts a code point (in particular on ASCII lines).
pub proof fn lemma_truncation(lines: Seq<Seq<u8>>, c: Config)
    requires
        c.truncate,
        !c.line_numbers,
    ensures
        forall|j: int|
            0 <= j < trace(lines, c).len() ==> {
                let shown = processed(lines, c)[(#[trigger] trace(lines, c)[j]).index as int];
                &&& trace(lines, c)[j].index < processed(lines, c).len()
                &&& (shown.len() > TRUNCATE_AT ==> {
                    &&& trace(lines, c)[j].text == shown.take(
                        boundary_at_or_before(shown, TRUNCATE_KEEP as nat) as int,
                    ) + ellipsis()
                    &&& trace(lines, c)[j].text.len() <= TRUNCATE_AT
                    &&& (!is_continuation(shown[TRUNCATE_KEEP as int]) ==> trace(lines, c)[j].text
                        == shown.take(TRUNCATE_KEEP as int) + ellipsis() && trace(
                        lines,
                        c,
                    )[j].text.len() == TRUNCATE_AT)
                })
            },
{
    lemma_trace_from_entries(processed(lines, c), c, 0, 0);
    let t = trace(lines, c);
    let p = processed(lines, c);
    assert forall|j: int| 0 <= j < t.len() implies {
        let shown = p[(#[trigger] t[j]).index as int];
        &&& t[j].index < p.len()
        &&& (shown.len() > TRUNCATE_AT ==> {
            &&& t[j].text == shown.take(
                boundary_at_or_before(shown, TRUNCATE_KEEP as nat) as int,
            ) + ellipsis()
            &&& t[j].text.len() <= TRUNCATE_AT
            &&& (!is_continuation(shown[TRUNCATE_KEEP as int]) ==> t[j].text == shown.take(
                TRUNCATE_KEEP as int,
            ) + ellipsis() && t[j].text.len() == TRUNCATE_AT)
        })
    } by {
        assert(entry_ok(p, c, 0, 0, t[j]));
        let shown = p[t[j].index as int];
        if shown.len() > TRUNCATE_AT {
            lemma_truncated_body_len(shown, c.truncate);
        }
    }
}

/// Reversing the line sequence twice reproduces the original order, so a
/// doubly reversed input is emitted exactly as the original input is.
pub proof fn lemma_reverse_involutive(lines: Seq<Seq<u8>>, c: Config)
    ensures
        lines.reverse().reverse() == lines,
        emitted(lines.reverse().reverse(), c) == emitted(lines, c),
{
    assert(lines.reverse().reverse() =~= lines);
}

/// The views of a vector of byte lines.
pub open spec fn views(lines: Seq<Vec<u8>>) -> Seq<Seq<u8>> {
    lines.map_values(|l: Vec<u8>| l@)
}

/// Run the whole selection and formatting pipeline over the decoded lines
/// of the input: reversal first when configured, then per line the line
/// limit, the byte budget, the byte offset, truncation and the line-number
/// prefix, exactly as `emitted` describes.
///
/// The caller prints each element followed by one newline; pagination only
/// cuts that printing short and never changes which lines would follow.
pub fn emit_lines(lines: &Vec<Vec<u8>>, c: &Config) -> (out: Vec<Vec<u8>>)
    ensures
        views(out@) == emitted(views(lines@), *c),
{
    let ghost v = views(lines@);
    let ghost p = processed(v, *c);
    let n = lines.len();
    proof {
        assert(p.len() == n);
    }
    let mut out: Vec<Vec<u8>> = Vec::new();
    let mut i: usize = 0;
    let mut bytes: u128 = 0;
    let mut stop: bool = false;
    while i < n && !stop
        invariant
            n == lines@.len(),
            i <= n,
            v == views(lines@),
            p == processed(v, *c),
            p.len() == n,
            bytes as nat <= (i as nat) * 0x1_0000_0000_0000_0000,
            views(out@) + emission_texts(trace_from(p, *c, i as nat, bytes as nat))
                == emitted(v, *c),
            stop ==> trace_from(p, *c, i as nat, bytes as nat) == Seq::<Emission>::empty(),
        decreases n - i, (if stop { 0int } else { 1int }),
    {
        let ghost tail = trace_from(p, *c, i as nat, bytes as nat);
        if i >= c.num_lines {
            stop = true;
        } else {
            let mut limit_hit: bool = false;
            if let Some(nb) = c.num_bytes {
                if bytes >= nb as u128 {
                    limit_hit = true;
                }
            }
            if limit_hit {
                stop = true;
            } else {
                let src: usize = if c.reverse { n - 1 - i } else { i };
                let line = &lines[src];
                proof {
                    assert(p[i as int] == line@);
                }
                let cost: u128 = line.len() as u128 + 1;
                proof {
                    assert(cost as nat == line_cost(p[i as int]));
                    assert(bytes as nat + cost as nat <= (i as nat + 1) * 0x1_0000_0000_0000_0000)
                        by (nonlinear_arith)
                        requires
                            bytes as nat <= (i as nat) * 0x1_0000_0000_0000_0000,
                            cost as nat <= 0x1_0000_0000_0000_0000,
                    ;
                    assert((i as nat + 1) * 0x1_0000_0000_0000_0000
                        <= 0xffff_ffff_ffff_ffff * 0x1_0000_0000_0000_0000)
                        by (nonlinear_arith)
                        requires
                            i as nat + 1 <= 0xffff_ffff_ffff_ffff,
                    ;
                }
                let mut skip: bool = false;
                if let Some(off) = c.byte_offset {
                    if bytes < off as u128 {
                        skip = true;
                    }
                }
                if !skip {
                    let ghost out_before = out@;
                    let rendered_line = format_line(line, i + 1, c.line_numbers, c.truncate);
                    out.push(rendered_line);
                    proof {
                        let next = trace_from(p, *c, i as nat + 1, bytes as nat + cost as nat);
                        assert(tail =~= seq![tail[0]] + next);
                        assert(tail[0].text == rendered_line@);
                        assert(emission_texts(tail) =~= seq![tail[0].text] + emission_texts(next));
                        assert(views(out@) =~= views(out_before).push(rendered_line@));
                        assert(views(out@) + emission_texts(next) =~= emitted(v, *c));
                    }
                } else {
                    proof {
                        assert(tail == trace_from(p, *c, i as nat + 1, bytes as nat + cost as nat));
                    }
                }
                bytes = bytes + cost;
                i = i + 1;
            }
        }
    }
    proof {
        if !stop {
            assert(trace_from(p, *c, i as nat, bytes as nat) =~= Seq::<Emission>::empty());
        }
        assert(emission_texts(Seq::<Emission>::empty()) =~= Seq::<Seq<u8>>::empty());
        assert(views(out@) =~= emitted(v, *c));
    }
    out
}

} // verus!

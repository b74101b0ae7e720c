//! Bounding of task output to a fixed number of bytes.

use vstd::prelude::*;
use vstd::string::*;
use vstd::utf8::*;

verus! {

/// The most bytes of output that a history row may hold.
pub const MAX_OUTPUT_BYTES: usize = 16 * 1024;

/// Ends every output that was cut short.
pub const TRUNCATED_MARKER: &'static str = "\n...[truncated]";

/// The number of bytes that a text takes in UTF-8.
pub open spec fn utf8_len(text: Seq<char>) -> nat {
    encode_utf8(text).len()
}

/// The number of characters of the longest prefix of `text` that takes at
/// most `budget` bytes in UTF-8.
pub open spec fn fitting_chars(text: Seq<char>, budget: nat) -> nat
    decreases text.len(),
{
    if text.len() == 0 || utf8_len(text) <= budget {
        text.len()
    } else {
        fitting_chars(text.drop_last(), budget)
    }
}

/// What a row keeps of `output`: all of it where it fits, else as many whole
/// characters as leave room for the marker, and the marker.
pub open spec fn bounded_output(output: Seq<char>) -> Seq<char> {
    if utf8_len(output) <= MAX_OUTPUT_BYTES {
        output
    } else {
        output.take(
            fitting_chars(output, (MAX_OUTPUT_BYTES - utf8_len(TRUNCATED_MARKER@)) as nat) as int,
        ) + TRUNCATED_MARKER@
    }
}

/// The encoding of a concatenation is the concatenation of the encodings.
proof fn lemma_encode_concat(a: Seq<char>, b: Seq<char>)
    ensures
        encode_utf8(a + b) == encode_utf8(a) + encode_utf8(b),
    decreases a.len(),
{
    if a.len() == 0 {
        assert(a + b =~= b);
        assert(encode_utf8(a) + encode_utf8(b) =~= encode_utf8(b));
    } else {
        lemma_encode_concat(a.drop_first(), b);
        assert((a + b).drop_first() =~= a.drop_first() + b);
        assert(encode_scalar(a[0] as u32) + (encode_utf8(a.drop_first()) + encode_utf8(b))
            =~= (encode_scalar(a[0] as u32) + encode_utf8(a.drop_first())) + encode_utf8(b));
    }
}

/// A longer prefix takes more bytes.
proof fn lemma_prefix_len_increases(text: Seq<char>, i: int, j: int)
    requires
        0 <= i <= j <= text.len(),
    ensures
        utf8_len(text.take(i)) + (j - i) <= utf8_len(text.take(j)),
    decreases j - i,
{
    if i < j {
        lemma_prefix_len_increases(text, i, j - 1);
        assert(text.take(j) =~= text.take(j - 1) + seq![text[j - 1]]);
        lemma_encode_concat(text.take(j - 1), seq![text[j - 1]]);
        reveal_with_fuel(encode_utf8, 2);
        assert(utf8_len(seq![text[j - 1]]) >= 1);
    }
}

/// Every prefix of whole characters ends on a character boundary.
proof fn lemma_prefix_ends_on_boundary(text: Seq<char>, k: int)
    requires
        0 <= k <= text.len(),
    ensures
        is_char_boundary(encode_utf8(text), utf8_len(text.take(k)) as int),
    decreases k,
{
    broadcast use encode_utf8_valid_utf8;

    let bytes = encode_utf8(text);
    if k == 0 {
        assert(text.take(0) =~= Seq::<char>::empty());
    } else {
        let rest = text.drop_first();
        encode_utf8_first_scalar(text);
        assert(pop_first_scalar(bytes) =~= encode_utf8(rest));
        lemma_prefix_ends_on_boundary(rest, k - 1);
        assert(text.take(k).drop_first() =~= rest.take(k - 1));
        lemma_prefix_len_increases(text, k, text.len() as int);
        assert(text.take(text.len() as int) =~= text);
    }
}

/// A prefix that fits, and that no longer prefix of the text does, is the
/// longest one.
proof fn lemma_fitting_chars(text: Seq<char>, budget: nat, k: int)
    requires
        0 <= k <= text.len(),
        utf8_len(text.take(k)) <= budget,
        k < text.len() ==> utf8_len(text.take(k + 1)) > budget,
    ensures
        fitting_chars(text, budget) == k,
    decreases text.len(),
{
    assert(text.take(text.len() as int) =~= text);
    if k < text.len() {
        lemma_prefix_len_increases(text, k + 1, text.len() as int);
        let shorter = text.drop_last();
        assert(shorter.take(k) =~= text.take(k));
        if k < shorter.len() {
            assert(shorter.take(k + 1) =~= text.take(k + 1));
        }
        lemma_fitting_chars(shorter, budget, k);
    }
}

/// The number of characters that fit is the greatest number of leading
/// characters that take no more than the budget.
pub proof fn law_fitting_chars_is_greatest(text: Seq<char>, budget: nat)
    ensures
        fitting_chars(text, budget) <= text.len(),
        utf8_len(text.take(fitting_chars(text, budget) as int)) <= budget,
        forall|k: int|
            fitting_chars(text, budget) < k <= text.len() ==> utf8_len(#[trigger] text.take(k))
                > budget,
    decreases text.len(),
{
    assert(text.take(text.len() as int) =~= text);
    if text.len() == 0 {
        assert(utf8_len(text) == 0);
    } else if utf8_len(text) > budget {
        let shorter = text.drop_last();
        law_fitting_chars_is_greatest(shorter, budget);
        let n = fitting_chars(text, budget) as int;
        assert(shorter.take(n) =~= text.take(n));
        assert forall|k: int| n < k <= text.len() implies utf8_len(#[trigger] text.take(k))
            > budget by {
            if k < text.len() {
                assert(shorter.take(k) =~= text.take(k));
            }
        }
    }
}

/// The marker takes fifteen bytes.
proof fn lemma_marker_len()
    ensures
        utf8_len(TRUNCATED_MARKER@) == 15,
{
    reveal_strlit("\n...[truncated]");
    is_ascii_chars_encode_utf8(TRUNCATED_MARKER@);
}

/// A bounded output never takes more than `MAX_OUTPUT_BYTES` bytes.
pub proof fn law_bounded_output_fits(output: Seq<char>)
    ensures
        utf8_len(bounded_output(output)) <= MAX_OUTPUT_BYTES,
{
    lemma_marker_len();
    let budget = (MAX_OUTPUT_BYTES - utf8_len(TRUNCATED_MARKER@)) as nat;
    law_fitting_chars_is_greatest(output, budget);
    lemma_encode_concat(output.take(fitting_chars(output, budget) as int), TRUNCATED_MARKER@);
}

/// Bounding an output that is bounded already changes nothing.
pub proof fn law_bounded_output_idempotent(output: Seq<char>)
    ensures
        bounded_output(bounded_output(output)) == bounded_output(output),
{
    law_bounded_output_fits(output);
}

/// Output of at most 16 KiB is kept as it is. Of longer output there stays a
/// beginning of whole characters, then the marker: the beginning and the marker
/// take at most 16 KiB together, and with one more character they would not.
pub proof fn law_bounded_output_is_whole_or_longest_beginning(output: Seq<char>)
    ensures
        encode_utf8(output).len() <= 16384 ==> bounded_output(output) == output,
        encode_utf8(output).len() > 16384 ==> exists|k: int|
            {
                &&& 0 <= k < output.len()
                &&& bounded_output(output) == #[trigger] output.take(k) + "\n...[truncated]"@
                &&& encode_utf8(output.take(k)).len() + 15 <= 16384
                &&& encode_utf8(output.take(k + 1)).len() + 15 > 16384
            },
{
    if encode_utf8(output).len() > 16384 {
        lemma_marker_len();
        let budget = (MAX_OUTPUT_BYTES - utf8_len(TRUNCATED_MARKER@)) as nat;
        law_fitting_chars_is_greatest(output, budget);
        let k = fitting_chars(output, budget) as int;
        assert(output.take(output.len() as int) =~= output);
        assert(utf8_len(output.take(k + 1)) > budget);
        assert(bounded_output(output) == output.take(k) + "\n...[truncated]"@);
    }
}

/// Two outputs that begin alike for 16 KiB and go on are kept alike: what lies
/// past the limit does not show.
pub proof fn law_bounded_output_ignores_what_is_past_the_limit(
    beginning: Seq<char>,
    a: Seq<char>,
    b: Seq<char>,
)
    requires
        encode_utf8(beginning).len() > 16384,
    ensures
        bounded_output(beginning + a) == bounded_output(beginning + b),
{
    lemma_marker_len();
    let budget = (MAX_OUTPUT_BYTES - utf8_len(TRUNCATED_MARKER@)) as nat;
    law_fitting_chars_is_greatest(beginning, budget);
    let k = fitting_chars(beginning, budget) as int;
    assert(beginning.take(beginning.len() as int) =~= beginning);
    assert(utf8_len(beginning.take(k + 1)) > budget);
    lemma_encode_concat(beginning, a);
    lemma_encode_concat(beginning, b);
    assert((beginning + a).take(k) =~= beginning.take(k));
    assert((beginning + b).take(k) =~= beginning.take(k));
    assert((beginning + a).take(k + 1) =~= beginning.take(k + 1));
    assert((beginning + b).take(k + 1) =~= beginning.take(k + 1));
    lemma_fitting_chars(beginning + a, budget, k);
    lemma_fitting_chars(beginning + b, budget, k);
}

/// Bounds `output` to `MAX_OUTPUT_BYTES` bytes of UTF-8. Longer output is cut
/// between two characters and ends with `TRUNCATED_MARKER`.
pub fn truncate_output(output: &str) -> (bounded: String)
    ensures
        bounded@ == bounded_output(output@),
        utf8_len(bounded@) <= MAX_OUTPUT_BYTES,
        encode_utf8(bounded@).len() <= 16384,
        encode_utf8(output@).len() <= 16384 ==> bounded@ == output@,
        encode_utf8(output@).len() > 16384 ==> exists|k: int|
            {
                &&& 0 <= k < output@.len()
                &&& bounded@ == #[trigger] output@.take(k) + "\n...[truncated]"@
                &&& encode_utf8(output@.take(k)).len() + 15 <= 16384
                &&& encode_utf8(output@.take(k + 1)).len() + 15 > 16384
            },
{
    broadcast use {encode_utf8_valid_utf8, encode_utf8_decode_utf8};

    proof {
        law_bounded_output_fits(output@);
        law_bounded_output_is_whole_or_longest_beginning(output@);
        lemma_marker_len();
    }
    let ghost text = output@;
    let ghost bytes = encode_utf8(text);
    if output.as_bytes().len() <= MAX_OUTPUT_BYTES {
        return output.to_owned();
    }
    let budget: usize = MAX_OUTPUT_BYTES - TRUNCATED_MARKER.as_bytes().len();
    let mut cutoff: usize = budget;
    while cutoff > 0 && !output.is_char_boundary(cutoff)
        invariant
            bytes == encode_utf8(output@),
            cutoff <= budget < bytes.len(),
            forall|i: int| cutoff < i <= budget ==> !is_char_boundary(bytes, i),
        decreases cutoff,
    {
        cutoff -= 1;
    }
    proof {
        is_char_boundary_start_end_of_seq(bytes);
    }
    let (head, _tail) = output.split_at(cutoff);
    let mut bounded = head.to_owned();
    bounded.append(TRUNCATED_MARKER);
    proof {
        decode_utf8_split(bytes, cutoff as int);
        let rest = decode_utf8(bytes.subrange(cutoff as int, bytes.len() as int));
        assert(text =~= head@ + rest);
        let k = head@.len() as int;
        assert(text.take(k) =~= head@);
        if k < text.len() {
            lemma_prefix_len_increases(text, k, k + 1);
            lemma_prefix_ends_on_boundary(text, k + 1);
        }
        lemma_fitting_chars(text, budget as nat, k);
    }
    bounded
}

} // verus!

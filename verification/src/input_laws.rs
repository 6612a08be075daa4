//! How lines of coefficients are read: part by part, each entry by its decimal digits.
use vstd::arithmetic::power::{lemma_pow0, lemma_pow1, lemma_pow_adds, pow};
use vstd::prelude::*;

use crate::input::{
    coefficients_in, decimal, is_digit, is_white, lemma_decimal_prefix, lemma_trim_start,
    parsed_u32, split_commas, trim_end, trimmed, unsigned_part, POINT_MASK,
};

verus! {

/// The entries with a comma between each two.
pub open spec fn joined(entries: Seq<Seq<char>>) -> Seq<char>
    decreases entries.len(),
{
    if entries.len() == 0 {
        Seq::empty()
    } else if entries.len() == 1 {
        entries[0]
    } else {
        joined(entries.drop_last()) + seq![','] + entries.last()
    }
}

/// The text is made of decimal digits, at least one, and stands for a 32-bit number.
pub open spec fn is_numeral(t: Seq<char>) -> bool {
    &&& t.len() > 0
    &&& forall|i: int| 0 <= i < t.len() ==> '0' <= (#[trigger] t[i]) <= '9'
    &&& decimal(t) <= u32::MAX
}

/// A line has at least one part.
proof fn lemma_split_nonempty(line: Seq<char>)
    ensures
        split_commas(line).len() > 0,
    decreases line.len(),
{
    if line.len() > 0 {
        lemma_split_nonempty(line.drop_last());
    }
}

/// The parts of two lines joined by a comma are the parts of the one and then those of the other.
pub proof fn parts_of_joined_lines(a: Seq<char>, b: Seq<char>)
    ensures
        split_commas(a + seq![','] + b) == split_commas(a) + split_commas(b),
    decreases b.len(),
{
    let line = a + seq![','] + b;
    if b.len() == 0 {
        assert(line.drop_last() =~= a);
        assert(split_commas(line) =~= split_commas(a) + split_commas(b));
    } else {
        parts_of_joined_lines(a, b.drop_last());
        lemma_split_nonempty(b.drop_last());
        assert(line.drop_last() =~= a + seq![','] + b.drop_last());
        assert(line.last() == b.last());
        assert(split_commas(line) =~= split_commas(a) + split_commas(b));
    }
}

/// A line without commas is one part.
pub proof fn line_without_commas(line: Seq<char>)
    requires
        forall|i: int| 0 <= i < line.len() ==> #[trigger] line[i] != ',',
    ensures
        split_commas(line) == seq![line],
    decreases line.len(),
{
    if line.len() == 0 {
        assert(line =~= Seq::empty());
    } else {
        let rest = line.drop_last();
        assert forall|i: int| 0 <= i < rest.len() implies #[trigger] rest[i] != ',' by {
            assert(rest[i] == line[i]);
        }
        line_without_commas(rest);
        assert(rest.push(line.last()) =~= line);
        assert(split_commas(line) =~= seq![line]);
    }
}

/// Two lists of parts are read one after the other, and neither if one of them cannot be read.
pub proof fn parts_read_in_turn(p: Seq<Seq<char>>, q: Seq<Seq<char>>)
    ensures
        coefficients_in(p + q) == match (coefficients_in(p), coefficients_in(q)) {
            (Some(x), Some(y)) => Some(x + y),
            _ => None,
        },
    decreases q.len(),
{
    if q.len() == 0 {
        assert(p + q =~= p);
        if let Some(x) = coefficients_in(p) {
            assert(x + Seq::<u32>::empty() =~= x);
        }
    } else {
        parts_read_in_turn(p, q.drop_last());
        assert((p + q).drop_last() =~= p + q.drop_last());
        assert((p + q).last() == q.last());
        if let (Some(x), Some(y)) = (coefficients_in(p), coefficients_in(q.drop_last())) {
            if let Some(v) = parsed_u32(trimmed(q.last())) {
                assert((x + y).push(v) =~= x + y.push(v));
            }
        }
    }
}

/// Reading two lines joined by a comma gives what reading the one and then the other gives; the
/// joined line is refused if one of the two is.
pub proof fn joined_lines_read_in_turn(a: Seq<char>, b: Seq<char>)
    ensures
        coefficients_in(split_commas(a + seq![','] + b)) == match (
            coefficients_in(split_commas(a)),
            coefficients_in(split_commas(b)),
        ) {
            (Some(x), Some(y)) => Some(x + y),
            _ => None,
        },
{
    parts_of_joined_lines(a, b);
    parts_read_in_turn(split_commas(a), split_commas(b));
}

/// What one part is read as.
proof fn lemma_one_part(t: Seq<char>)
    ensures
        coefficients_in(seq![t]) == if trimmed(t).len() == 0 {
            Some(Seq::<u32>::empty())
        } else {
            match parsed_u32(trimmed(t)) {
                Some(v) => Some(seq![v]),
                None => None,
            }
        },
{
    let parts = seq![t];
    assert(parts.drop_last() =~= Seq::empty());
    assert(parts.last() == t);
    assert(coefficients_in(parts.drop_last()) == Some(Seq::<u32>::empty()));
    if let Some(v) = parsed_u32(trimmed(t)) {
        assert(Seq::<u32>::empty().push(v) =~= seq![v]);
    }
}

/// White space at the end is cut off.
proof fn lemma_trim_end(body: Seq<char>, post: Seq<char>)
    requires
        forall|i: int| 0 <= i < post.len() ==> is_white(#[trigger] post[i]),
        body.len() > 0,
        !is_white(body.last()),
    ensures
        trim_end(body + post) == body,
    decreases post.len(),
{
    let t = body + post;
    if post.len() == 0 {
        assert(t =~= body);
    } else {
        let rest = post.drop_last();
        assert forall|i: int| 0 <= i < rest.len() implies is_white(#[trigger] rest[i]) by {
            assert(rest[i] == post[i]);
        }
        assert(t.drop_last() =~= body + rest);
        assert(t.last() == post[post.len() - 1]);
        lemma_trim_end(body, rest);
    }
}

/// Trimming takes exactly the white space around a text away.
pub proof fn trimming_takes_white_space(pre: Seq<char>, body: Seq<char>, post: Seq<char>)
    requires
        forall|i: int| 0 <= i < pre.len() ==> is_white(#[trigger] pre[i]),
        forall|i: int| 0 <= i < post.len() ==> is_white(#[trigger] post[i]),
        body.len() > 0 ==> !is_white(body[0]) && !is_white(body.last()),
    ensures
        trimmed(pre + body + post) == body,
{
    let t = pre + body + post;
    if body.len() > 0 {
        let k = pre.len() as int;
        assert forall|i: int| 0 <= i < k implies is_white(#[trigger] t[i]) by {
            assert(t[i] == pre[i]);
        }
        lemma_trim_start(t, k);
        assert(t.skip(k) =~= body + post);
        assert((body + post)[0] == body[0]);
        lemma_trim_end(body, post);
    } else {
        assert forall|i: int| 0 <= i < t.len() implies is_white(#[trigger] t[i]) by {
            if i < pre.len() {
                assert(t[i] == pre[i]);
            } else {
                assert(t[i] == post[i - pre.len()]);
            }
        }
        lemma_trim_start(t, t.len() as int);
        assert(t.skip(t.len() as int) =~= Seq::empty());
        assert(body =~= Seq::empty());
    }
}

/// White space is never a comma.
proof fn lemma_padded(pre: Seq<char>, body: Seq<char>, post: Seq<char>)
    requires
        forall|i: int| 0 <= i < pre.len() ==> is_white(#[trigger] pre[i]),
        forall|i: int| 0 <= i < post.len() ==> is_white(#[trigger] post[i]),
        forall|i: int| 0 <= i < body.len() ==> #[trigger] body[i] != ',',
    ensures
        split_commas(pre + body + post) == seq![pre + body + post],
{
    let t = pre + body + post;
    assert forall|i: int| 0 <= i < t.len() implies #[trigger] t[i] != ',' by {
        if i < pre.len() {
            assert(t[i] == pre[i]);
        } else if i < pre.len() + body.len() {
            assert(t[i] == body[i - pre.len()]);
        } else {
            assert(t[i] == post[i - pre.len() - body.len()]);
        }
    }
    line_without_commas(t);
}

/// A line of white space holds no coefficient and is not refused.
pub proof fn blank_line_holds_nothing(line: Seq<char>)
    requires
        forall|i: int| 0 <= i < line.len() ==> is_white(#[trigger] line[i]),
    ensures
        coefficients_in(split_commas(line)) == Some(Seq::<u32>::empty()),
{
    let e = Seq::<char>::empty();
    assert(line + e + e =~= line);
    lemma_padded(line, e, e);
    trimming_takes_white_space(line, e, e);
    lemma_one_part(line);
}

/// A line that is one entry, decimal digits with white space around them, is read as the number
/// of those digits, and refused if that number has more than 32 bits. A plus sign in front of the
/// digits changes nothing.
pub proof fn entry_is_its_number(pre: Seq<char>, digits: Seq<char>, post: Seq<char>)
    requires
        forall|i: int| 0 <= i < pre.len() ==> is_white(#[trigger] pre[i]),
        forall|i: int| 0 <= i < post.len() ==> is_white(#[trigger] post[i]),
        digits.len() > 0,
        forall|i: int| 0 <= i < digits.len() ==> '0' <= (#[trigger] digits[i]) <= '9',
    ensures
        coefficients_in(split_commas(pre + digits + post)) == if decimal(digits) <= u32::MAX {
            Some(seq![decimal(digits) as u32])
        } else {
            None
        },
        coefficients_in(split_commas(pre + (seq!['+'] + digits) + post)) == if decimal(digits)
            <= u32::MAX {
            Some(seq![decimal(digits) as u32])
        } else {
            None
        },
{
    assert forall|i: int| 0 <= i < digits.len() implies is_digit(#[trigger] digits[i])
        && digits[i] != ',' && !is_white(digits[i]) by {}
    lemma_padded(pre, digits, post);
    assert(!is_white(digits[0]) && !is_white(digits.last()));
    trimming_takes_white_space(pre, digits, post);
    lemma_one_part(pre + digits + post);
    assert(digits[0] != '+');
    let signed = seq!['+'] + digits;
    assert forall|i: int| 0 <= i < signed.len() implies #[trigger] signed[i] != ','
        && !is_white(signed[i]) by {
        if i > 0 {
            assert(signed[i] == digits[i - 1]);
        }
    }
    lemma_padded(pre, signed, post);
    trimming_takes_white_space(pre, signed, post);
    lemma_one_part(pre + signed + post);
    assert(signed.skip(1) =~= digits);
    assert(unsigned_part(signed) == digits);
}

/// A line that is one entry with a character other than a digit or a leading plus sign is
/// refused, and so is a plus sign alone.
pub proof fn other_entries_are_refused(pre: Seq<char>, body: Seq<char>, post: Seq<char>, at: int)
    requires
        forall|i: int| 0 <= i < pre.len() ==> is_white(#[trigger] pre[i]),
        forall|i: int| 0 <= i < post.len() ==> is_white(#[trigger] post[i]),
        forall|i: int| 0 <= i < body.len() ==> #[trigger] body[i] != ',',
        0 <= at < body.len(),
        !is_white(body[0]) && !is_white(body.last()),
        !('0' <= body[at] <= '9') && (at > 0 || body[at] != '+' || body.len() == 1),
    ensures
        coefficients_in(split_commas(pre + body + post)) is None,
{
    lemma_padded(pre, body, post);
    trimming_takes_white_space(pre, body, post);
    lemma_one_part(pre + body + post);
    let digits = unsigned_part(body);
    if body[0] == '+' {
        if at > 0 {
            assert(digits[at - 1] == body[at]);
            assert(!is_digit(digits[at - 1]));
        }
    } else {
        assert(!is_digit(digits[at]));
    }
}

/// Decimal notation is positional: the digits in front count ten times for each digit behind
/// them, and one digit is its distance from zero.
pub proof fn decimal_is_positional(a: Seq<char>, b: Seq<char>, c: char)
    ensures
        decimal(a + b) == decimal(a) * pow(10, b.len()) + decimal(b),
        decimal(seq![c]) == c as u32 - '0' as u32,
    decreases b.len(),
{
    assert(seq![c].drop_last() =~= Seq::empty());
    assert(decimal(seq![c].drop_last()) == 0);
    if b.len() == 0 {
        assert(a + b =~= a);
        lemma_pow0(10);
    } else {
        let rest = b.drop_last();
        decimal_is_positional(a, rest, c);
        assert((a + b).drop_last() =~= a + rest);
        assert((a + b).last() == b.last());
        lemma_pow_adds(10, rest.len(), 1);
        lemma_pow1(10);
        let (x, p) = (decimal(a), pow(10, rest.len()));
        assert(10 * (x * p + decimal(rest)) == x * (p * 10) + 10 * decimal(rest))
            by (nonlinear_arith);
    }
}

/// A line of entries between commas, each made of decimal digits, is read as one number for each
/// entry, in their order.
pub proof fn numerals_are_all_read(entries: Seq<Seq<char>>)
    requires
        forall|i: int| 0 <= i < entries.len() ==> is_numeral(#[trigger] entries[i]),
    ensures
        ({
            &&& coefficients_in(split_commas(joined(entries))) matches Some(values)
            &&& values.len() == entries.len()
            &&& forall|i: int|
                0 <= i < entries.len() ==> values[i] == decimal(#[trigger] entries[i])
        }),
    decreases entries.len(),
{
    let e = Seq::<char>::empty();
    if entries.len() == 0 {
        blank_line_holds_nothing(e);
    } else {
        let last = entries.last();
        assert(is_numeral(entries[entries.len() - 1]));
        entry_is_its_number(e, last, e);
        assert(e + last + e =~= last);
        assert forall|i: int| 0 <= i < last.len() implies is_digit(#[trigger] last[i]) by {}
        lemma_decimal_prefix(last, 0);
        if entries.len() > 1 {
            let rest = entries.drop_last();
            assert forall|i: int| 0 <= i < rest.len() implies is_numeral(#[trigger] rest[i]) by {
                assert(rest[i] == entries[i]);
            }
            numerals_are_all_read(rest);
            joined_lines_read_in_turn(joined(rest), last);
            let values = coefficients_in(split_commas(joined(entries)))->0;
            assert forall|i: int| 0 <= i < entries.len() implies values[i] == decimal(
                #[trigger] entries[i],
            ) by {
                if i < rest.len() {
                    assert(rest[i] == entries[i]);
                }
            }
        }
    }
}

/// White space is made of the 25 characters that Unicode gives the property `White_Space`.
pub proof fn white_space_is_these_characters(c: char)
    ensures
        is_white(c) <==> seq![
            0x9int, 0xa, 0xb, 0xc, 0xd, 0x20, 0x85, 0xa0, 0x1680, 0x2000, 0x2001, 0x2002, 0x2003,
            0x2004, 0x2005, 0x2006, 0x2007, 0x2008, 0x2009, 0x200a, 0x2028, 0x2029, 0x202f, 0x205f,
            0x3000,
        ].contains(c as int),
{
    let all = seq![
        0x9int, 0xa, 0xb, 0xc, 0xd, 0x20, 0x85, 0xa0, 0x1680, 0x2000, 0x2001, 0x2002, 0x2003,
        0x2004, 0x2005, 0x2006, 0x2007, 0x2008, 0x2009, 0x200a, 0x2028, 0x2029, 0x202f, 0x205f,
        0x3000,
    ];
    let v = c as int;
    if is_white(c) {
        let i = if v <= 0xd {
            v - 0x9
        } else if v == 0x20 {
            5
        } else if v == 0x85 {
            6
        } else if v == 0xa0 {
            7
        } else if v == 0x1680 {
            8
        } else if v <= 0x200a {
            v - 0x2000 + 9
        } else if v == 0x2028 {
            20
        } else if v == 0x2029 {
            21
        } else if v == 0x202f {
            22
        } else if v == 0x205f {
            23
        } else {
            24
        };
        assert(all[i] == v);
    }
}

/// The evaluation point for a seed is not drawn with the seed of the coefficients.
pub proof fn point_has_its_own_seed(seed: u64, other: u64)
    ensures
        seed ^ POINT_MASK != seed,
        seed ^ POINT_MASK == other ^ POINT_MASK ==> seed == other,
{
    assert(seed ^ 0xa076_1d64_78bd_642fu64 != seed) by (bit_vector);
    assert(seed ^ 0xa076_1d64_78bd_642fu64 == other ^ 0xa076_1d64_78bd_642fu64 ==> seed == other)
        by (bit_vector);
}

} // verus!

//! What holds of lines, pieces, white space and numbers, character by character.

use vstd::prelude::*;

verus! {

/// White space is 25 code points.
pub proof fn law_white_space_by_code_point(c: char)
    ensures
        crate::text::is_white_space(c) <==> ({
            let n = c as int;
            ||| 0x9 <= n <= 0xd
            ||| n == 0x20
            ||| n == 0x85
            ||| n == 0xa0
            ||| n == 0x1680
            ||| 0x2000 <= n <= 0x200a
            ||| n == 0x2028
            ||| n == 0x2029
            ||| n == 0x202f
            ||| n == 0x205f
            ||| n == 0x3000
        }),
{
}

/// Trimming the end of a text cuts off the white space behind its last visible
/// character, and nothing else.
pub proof fn law_trimming_the_end(text: Seq<char>, blank: Seq<char>)
    requires
        text.len() > 0 ==> !crate::text::is_white_space(text.last()),
        forall|i: int| 0 <= i < blank.len() ==> crate::text::is_white_space(#[trigger] blank[i]),
    ensures
        crate::text::trimmed_end(text + blank) == text,
    decreases blank.len(),
{
    if blank.len() == 0 {
        assert(text + blank =~= text);
    } else {
        assert((text + blank).last() == blank[blank.len() - 1]);
        assert((text + blank).drop_last() =~= text + blank.drop_last());
        law_trimming_the_end(text, blank.drop_last());
    }
}

/// Trimming a text cuts off the white space before its first and behind its
/// last visible character, and nothing else.
pub proof fn law_trimming_both_ends(before: Seq<char>, text: Seq<char>, after: Seq<char>)
    requires
        text.len() > 0 ==> !crate::text::is_white_space(text[0]) && !crate::text::is_white_space(
            text.last(),
        ),
        forall|i: int| 0 <= i < before.len() ==> crate::text::is_white_space(#[trigger] before[i]),
        forall|i: int| 0 <= i < after.len() ==> crate::text::is_white_space(#[trigger] after[i]),
    ensures
        crate::text::trimmed(before + text + after) == text,
    decreases before.len(),
{
    let all = before + text + after;
    if before.len() == 0 {
        assert(all =~= text + after);
        if text.len() > 0 {
            law_trimming_the_end(text, after);
        } else {
            assert(all =~= after);
            lemma_blank_start(after);
            law_trimming_the_end(text, Seq::empty());
            assert(text + Seq::<char>::empty() =~= text);
        }
    } else {
        assert(all[0] == before[0]);
        assert(all.drop_first() =~= before.drop_first() + text + after);
        assert forall|i: int| 0 <= i < before.drop_first().len() implies
            crate::text::is_white_space(#[trigger] before.drop_first()[i]) by {
            assert(before.drop_first()[i] == before[i + 1]);
        }
        law_trimming_both_ends(before.drop_first(), text, after);
    }
}

/// Nothing but white space is nothing once trimmed.
proof fn lemma_blank_start(blank: Seq<char>)
    requires
        forall|i: int| 0 <= i < blank.len() ==> crate::text::is_white_space(#[trigger] blank[i]),
    ensures
        crate::text::trimmed_start(blank) == Seq::<char>::empty(),
    decreases blank.len(),
{
    if blank.len() > 0 {
        assert(crate::text::is_white_space(blank[0]));
        assert forall|i: int| 0 <= i < blank.drop_first().len() implies
            crate::text::is_white_space(#[trigger] blank.drop_first()[i]) by {
            assert(blank.drop_first()[i] == blank[i + 1]);
        }
        lemma_blank_start(blank.drop_first());
    } else {
        assert(blank =~= Seq::<char>::empty());
    }
}

/// Text falls into lines at each line feed. A carriage return right before it
/// belongs to the ending; any other character belongs to its line. What follows
/// the last line feed is a line if it is not empty.
pub proof fn law_lines_end_at_line_feeds(line: Seq<char>, rest: Seq<char>)
    requires
        !line.contains('\n'),
    ensures
        crate::text::lines_of(line + "\r\n"@ + rest) == seq![line] + crate::text::lines_of(rest),
        line.len() == 0 || line.last() != '\r' ==> crate::text::lines_of(line + "\n"@ + rest)
            == seq![line] + crate::text::lines_of(rest),
        line.len() > 0 ==> crate::text::lines_of(line) == seq![line],
        line.len() == 0 ==> crate::text::lines_of(line).len() == 0,
{
    reveal_strlit("\r\n");
    reveal_strlit("\n");
    assert(crate::layout::one_line(line)) by {
        assert forall|i: int| 0 <= i < line.len() implies #[trigger] line[i] != '\n' by {
            assert(line.contains(line[i]));
        }
    }
    let ended = line.push('\r');
    assert(crate::layout::one_line(ended));
    assert(line + "\r\n"@ + rest =~= ended + "\n"@ + rest);
    crate::layout::lemma_first_line(ended, rest);
    assert(ended.drop_last() =~= line);
    crate::layout::lemma_first_line(line, rest);
    if line.len() > 0 {
        crate::layout::lemma_single_line(line);
    }
}

/// No piece of a split text holds the separator, and the pieces with the
/// separator between each two make up the text again.
pub proof fn law_pieces_rejoin(s: Seq<char>, sep: char)
    ensures
        crate::text::pieces(s, sep).len() > 0,
        forall|k: int|
            0 <= k < crate::text::pieces(s, sep).len() ==> !(#[trigger] crate::text::pieces(
                s,
                sep,
            )[k]).contains(sep),
        crate::text::joined(crate::text::pieces(s, sep), seq![sep]) == s,
    decreases s.len(),
{
    let n = crate::text::run_len(s, sep) as int;
    let parts = crate::text::pieces(s, sep);
    crate::layout::lemma_run(s, sep);
    if n < s.len() {
        let first = s.take(n);
        let rest = s.skip(n + 1);
        let later = crate::text::pieces(rest, sep);
        law_pieces_rejoin(rest, sep);
        assert forall|k: int| 0 <= k < parts.len() implies !(#[trigger] parts[k]).contains(
            sep,
        ) by {
            if k > 0 {
                assert(parts[k] == later[k - 1]);
            } else {
                assert forall|i: int| 0 <= i < first.len() implies first[i] != sep by {
                    assert(first[i] == s[i]);
                }
            }
        }
        law_joining_two_lists(seq![first], later, seq![sep]);
        assert(seq![first] + later == parts);
        assert(first + seq![sep] + rest =~= s);
    } else {
        assert(!s.contains(sep));
        assert(parts[0] == s);
    }
}

/// Two lists are joined one by one, with the separator between them.
pub proof fn law_joining_two_lists(a: Seq<Seq<char>>, b: Seq<Seq<char>>, sep: Seq<char>)
    ensures
        crate::text::joined(Seq::<Seq<char>>::empty(), sep).len() == 0,
        a.len() == 1 ==> crate::text::joined(a, sep) == a[0],
        a.len() > 0 && b.len() > 0 ==> crate::text::joined(a + b, sep) == crate::text::joined(
            a,
            sep,
        ) + sep + crate::text::joined(b, sep),
    decreases b.len(),
{
    if a.len() > 0 && b.len() > 0 {
        let all = a + b;
        assert(all.drop_last() =~= a + b.drop_last());
        assert(all.last() == b.last());
        if b.len() == 1 {
            assert(a + b.drop_last() =~= a);
            assert(crate::text::joined(b, sep) == b.last());
        } else {
            law_joining_two_lists(a, b.drop_last(), sep);
            assert(crate::text::joined(all, sep) =~= crate::text::joined(a, sep) + sep
                + crate::text::joined(b, sep));
        }
    }
}

/// Each line of a stack ends in a line feed, and two stacks one below the other
/// are the stack of all their lines.
pub proof fn law_stacking_two_lists(a: Seq<Seq<char>>, b: Seq<Seq<char>>)
    ensures
        crate::text::stacked(Seq::<Seq<char>>::empty()).len() == 0,
        a.len() == 1 ==> crate::text::stacked(a) == a[0].push('\n'),
        crate::text::stacked(a + b) == crate::text::stacked(a) + crate::text::stacked(b),
    decreases b.len(),
{
    reveal_strlit("\n");
    if a.len() == 1 {
        assert(a.drop_last() =~= Seq::<Seq<char>>::empty());
        assert(crate::text::stacked(a.drop_last()) =~= Seq::<char>::empty());
        assert(crate::text::stacked(a) =~= a[0].push('\n'));
    }
    if b.len() == 0 {
        assert(a + b =~= a);
        assert(crate::text::stacked(a) + crate::text::stacked(b) =~= crate::text::stacked(a));
    } else {
        assert((a + b).drop_last() =~= a + b.drop_last());
        law_stacking_two_lists(a, b.drop_last());
        assert(crate::text::stacked(a + b) =~= crate::text::stacked(a) + crate::text::stacked(b));
    }
}

/// The parts that hold something are all those parts, in their order.
pub proof fn law_only_empty_parts_are_dropped(parts: Seq<Seq<char>>)
    ensures
        crate::text::nonempty(parts) == parts.filter(|part: Seq<char>| part.len() > 0),
    decreases parts.len(),
{
    reveal(Seq::filter);
    if parts.len() > 0 {
        law_only_empty_parts_are_dropped(parts.drop_last());
    } else {
        assert(crate::text::nonempty(parts) =~= parts);
    }
}

/// Blanks are spaces, as many as asked for.
pub proof fn law_blanks_are_spaces(n: int)
    ensures
        n >= 0 ==> crate::text::blanks(n).len() == n,
        n < 0 ==> crate::text::blanks(n).len() == 0,
        forall|i: int| 0 <= i < n ==> #[trigger] crate::text::blanks(n)[i] == ' ',
{
}

/// A list of texts holds what its strings hold, one by one.
pub proof fn law_texts_are_the_strings(strings: Seq<String>)
    ensures
        crate::text::texts(strings).len() == strings.len(),
        forall|i: int|
            0 <= i < strings.len() ==> #[trigger] crate::text::texts(strings)[i] == strings[i]@,
{
}

/// A list of decimals holds the decimal text of its numbers, one by one.
pub proof fn law_decimals_are_the_numbers(numbers: Seq<usize>)
    ensures
        crate::text::decimals(numbers).len() == numbers.len(),
        forall|i: int|
            0 <= i < numbers.len() ==> #[trigger] crate::text::decimals(numbers)[i]
                == crate::text::decimal(numbers[i] as nat),
{
}

/// A number is written in decimal: ten times a number and a digit is the text
/// of the number and the digit behind it.
pub proof fn law_decimal_digits(n: nat, d: nat)
    requires
        d < 10,
    ensures
        crate::text::decimal(0) == "0"@,
        crate::text::decimal(1) == "1"@,
        crate::text::decimal(2) == "2"@,
        crate::text::decimal(3) == "3"@,
        crate::text::decimal(4) == "4"@,
        crate::text::decimal(5) == "5"@,
        crate::text::decimal(6) == "6"@,
        crate::text::decimal(7) == "7"@,
        crate::text::decimal(8) == "8"@,
        crate::text::decimal(9) == "9"@,
        n > 0 ==> crate::text::decimal(10 * n + d) == crate::text::decimal(n)
            + crate::text::decimal(d),
{
    reveal_strlit("0");
    reveal_strlit("1");
    reveal_strlit("2");
    reveal_strlit("3");
    reveal_strlit("4");
    reveal_strlit("5");
    reveal_strlit("6");
    reveal_strlit("7");
    reveal_strlit("8");
    reveal_strlit("9");
    assert(crate::text::decimal(0) =~= "0"@);
    assert(crate::text::decimal(1) =~= "1"@);
    assert(crate::text::decimal(2) =~= "2"@);
    assert(crate::text::decimal(3) =~= "3"@);
    assert(crate::text::decimal(4) =~= "4"@);
    assert(crate::text::decimal(5) =~= "5"@);
    assert(crate::text::decimal(6) =~= "6"@);
    assert(crate::text::decimal(7) =~= "7"@);
    assert(crate::text::decimal(8) =~= "8"@);
    assert(crate::text::decimal(9) =~= "9"@);
    if n > 0 {
        assert((10 * n + d) / 10 == n && (10 * n + d) % 10 == d);
        assert(crate::text::decimal(10 * n + d) =~= crate::text::decimal(n)
            + crate::text::decimal(d));
    }
}

/// Digits before others count ten times as much for each of them.
proof fn lemma_leading_zeros(zeros: Seq<char>, digits: Seq<char>)
    requires
        forall|i: int| 0 <= i < zeros.len() ==> #[trigger] zeros[i] == '0',
    ensures
        crate::text::decimal_value(zeros + digits) == crate::text::decimal_value(digits),
    decreases zeros.len() + digits.len(),
{
    let all = zeros + digits;
    if digits.len() > 0 {
        assert(all.drop_last() =~= zeros + digits.drop_last());
        assert(all.last() == digits.last());
        lemma_leading_zeros(zeros, digits.drop_last());
    } else if zeros.len() > 0 {
        assert(all =~= zeros);
        assert(zeros[zeros.len() - 1] == '0');
        assert(zeros.drop_last() + digits =~= zeros.drop_last());
        lemma_leading_zeros(zeros.drop_last(), digits);
    } else {
        assert(all =~= digits);
    }
}

/// A number up to `max` that is written in decimal, with any zeros in front, is
/// read back. A larger one, and text that holds anything but the digits `0` to
/// `9`, reads as 0.
pub proof fn law_numbers_read_back(zeros: Seq<char>, n: nat, max: nat)
    requires
        forall|i: int| 0 <= i < zeros.len() ==> #[trigger] zeros[i] == '0',
    ensures
        crate::text::parsed(zeros + crate::text::decimal(n), max) == if n <= max {
            n
        } else {
            0
        },
{
    let s = zeros + crate::text::decimal(n);
    crate::layout::lemma_decimal(n);
    lemma_leading_zeros(zeros, crate::text::decimal(n));
    assert forall|i: int| 0 <= i < s.len() implies '0' <= #[trigger] s[i] <= '9' by {
        if i < zeros.len() {
            assert(s[i] == zeros[i]);
        } else {
            assert(s[i] == crate::text::decimal(n)[i - zeros.len()]);
        }
    }
}

/// Text that writes no number in the digits `0` to `9` reads as 0.
pub proof fn law_other_text_reads_as_zero(s: Seq<char>, max: nat)
    requires
        s.len() == 0 || exists|i: int| 0 <= i < s.len() && !('0' <= #[trigger] s[i] <= '9'),
    ensures
        crate::text::parsed(s, max) == 0,
        crate::text::count_value(s) == 0,
        crate::trace::line_value(s) == 0,
{
}

/// A count fits 32 bits: one that does is read back, a larger one reads as 0.
pub proof fn law_counts_fit_32_bits(zeros: Seq<char>, n: nat)
    requires
        forall|i: int| 0 <= i < zeros.len() ==> #[trigger] zeros[i] == '0',
    ensures
        crate::text::count_value(zeros + crate::text::decimal(n)) == if n <= 0xffff_ffff {
            n
        } else {
            0
        },
{
    law_numbers_read_back(zeros, n, u32::MAX as nat);
}

/// The line of a call is read back from its decimal text, whatever `usize`
/// holds; one that `usize` does not hold reads as 0.
pub proof fn law_line_numbers_read_back(zeros: Seq<char>, n: nat)
    requires
        forall|i: int| 0 <= i < zeros.len() ==> #[trigger] zeros[i] == '0',
    ensures
        crate::trace::line_value(zeros + crate::text::decimal(n)) == if n <= usize::MAX {
            n
        } else {
            0
        },
{
    law_numbers_read_back(zeros, n, usize::MAX as nat);
}

/// Every text of digits is a number in decimal with zeros in front, so the laws
/// above say how any text is read.
pub proof fn law_digits_are_a_number(s: Seq<char>) -> (written: (Seq<char>, nat))
    requires
        s.len() > 0,
        forall|i: int| 0 <= i < s.len() ==> '0' <= #[trigger] s[i] <= '9',
    ensures
        forall|i: int| 0 <= i < written.0.len() ==> #[trigger] written.0[i] == '0',
        s == written.0 + crate::text::decimal(written.1),
    decreases s.len(),
{
    let last = (s.last() as int - '0' as int) as nat;
    assert('0' <= s[s.len() - 1] <= '9');
    assert(crate::text::digit_char(last) == s.last());
    if s.len() == 1 {
        assert(s =~= Seq::<char>::empty() + crate::text::decimal(last));
        (Seq::empty(), last)
    } else {
        let shorter = s.drop_last();
        assert forall|i: int| 0 <= i < shorter.len() implies '0' <= #[trigger] shorter[i]
            <= '9' by {
            assert(shorter[i] == s[i]);
        }
        let (zeros, n) = law_digits_are_a_number(shorter);
        if n > 0 {
            assert((10 * n + last) / 10 == n && (10 * n + last) % 10 == last);
            assert(crate::text::decimal(10 * n + last) == crate::text::decimal(n).push(s.last()));
            assert(s =~= shorter.push(s.last()));
            assert(s =~= zeros + crate::text::decimal(10 * n + last));
            (zeros, 10 * n + last)
        } else {
            assert(s =~= shorter + crate::text::decimal(last));
            assert forall|i: int| 0 <= i < shorter.len() implies #[trigger] shorter[i] == '0' by {
                if i < zeros.len() {
                    assert(shorter[i] == zeros[i]);
                }
            }
            (shorter, last)
        }
    }
}

/// The value of digits: nothing counts 0, and a digit behind others adds to ten
/// times their value.
pub proof fn law_value_of_digits(s: Seq<char>, d: nat)
    requires
        d < 10,
    ensures
        crate::text::decimal_value(Seq::<char>::empty()) == 0,
        crate::text::decimal_value(s + crate::text::decimal(d)) == 10
            * crate::text::decimal_value(s) + d,
{
    assert((s + crate::text::decimal(d)).drop_last() =~= s);
}

} // verus!

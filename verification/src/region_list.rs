//! Reading the list of regions.
//!
//! The list is a text with one region identifier to a line. Blanks around an
//! identifier do not belong to it, and a line that holds nothing but blanks
//! names no region.

use crate::identifiers::identifier_views;
use vstd::prelude::*;
use vstd::string::*;

verus! {

/// The characters that count as blank: those with the Unicode property
/// `White_Space`.
pub open spec fn is_blank(c: char) -> bool {
    let code = c as u32;
    ||| 0x09 <= code <= 0x0D
    ||| code == 0x20
    ||| code == 0x85
    ||| code == 0xA0
    ||| code == 0x1680
    ||| 0x2000 <= code <= 0x200A
    ||| code == 0x2028
    ||| code == 0x2029
    ||| code == 0x202F
    ||| code == 0x205F
    ||| code == 0x3000
}

/// How many characters stand before the first line feed, or in the whole text
/// where it has none.
pub open spec fn line_len(text: Seq<char>) -> nat
    decreases text.len(),
{
    if text.len() == 0 || text[0] == '\n' {
        0
    } else {
        1 + line_len(text.drop_first())
    }
}

/// How many blanks the text begins with.
pub open spec fn leading_blanks(text: Seq<char>) -> nat
    decreases text.len(),
{
    if text.len() == 0 || !is_blank(text[0]) {
        0
    } else {
        1 + leading_blanks(text.drop_first())
    }
}

/// How many blanks the text ends with.
pub open spec fn trailing_blanks(text: Seq<char>) -> nat
    decreases text.len(),
{
    if text.len() == 0 || !is_blank(text.last()) {
        0
    } else {
        1 + trailing_blanks(text.drop_last())
    }
}

/// The text without the blanks at its two ends.
pub open spec fn trimmed(text: Seq<char>) -> Seq<char> {
    if leading_blanks(text) >= text.len() {
        Seq::empty()
    } else {
        text.subrange(leading_blanks(text) as int, text.len() - trailing_blanks(text))
    }
}

/// The regions that the text lists: its lines, cut at each line feed, each
/// without the blanks at its ends, in order and without those that are empty
/// then.
pub open spec fn region_list(text: Seq<char>) -> Seq<Seq<char>>
    decreases text.len(),
{
    if text.len() == 0 {
        Seq::empty()
    } else {
        let len = line_len(text) as int;
        let region = trimmed(text.take(len));
        let rest = if len < text.len() {
            region_list(text.skip(len + 1))
        } else {
            Seq::empty()
        };
        if region.len() == 0 {
            rest
        } else {
            seq![region] + rest
        }
    }
}

/// A line ends at the first line feed.
proof fn lemma_line_len(text: Seq<char>, len: int)
    requires
        0 <= len <= text.len(),
        forall|i: int| 0 <= i < len ==> text[i] != '\n',
        len == text.len() || text[len] == '\n',
    ensures
        line_len(text) == len,
    decreases len,
{
    if len > 0 {
        lemma_line_len(text.drop_first(), len - 1);
    }
}

/// The blanks at the start end at the first character that is not blank.
proof fn lemma_leading_blanks(text: Seq<char>, blanks: int)
    requires
        0 <= blanks <= text.len(),
        forall|i: int| 0 <= i < blanks ==> is_blank(text[i]),
        blanks == text.len() || !is_blank(text[blanks]),
    ensures
        leading_blanks(text) == blanks,
    decreases blanks,
{
    if blanks > 0 {
        lemma_leading_blanks(text.drop_first(), blanks - 1);
    }
}

/// The blanks at the end begin after the last character that is not blank.
proof fn lemma_trailing_blanks(text: Seq<char>, blanks: int)
    requires
        0 <= blanks <= text.len(),
        forall|i: int| text.len() - blanks <= i < text.len() ==> is_blank(text[i]),
        blanks == text.len() || !is_blank(text[text.len() - blanks - 1]),
    ensures
        trailing_blanks(text) == blanks,
    decreases blanks,
{
    if blanks > 0 {
        lemma_trailing_blanks(text.drop_last(), blanks - 1);
    }
}

/// The counts of blanks stay within the text, and what is left between them
/// neither begins nor ends with a blank.
proof fn lemma_trimmed_is_clean(text: Seq<char>)
    ensures
        leading_blanks(text) <= text.len(),
        trailing_blanks(text) <= text.len(),
        forall|i: int| 0 <= i < leading_blanks(text) ==> is_blank(text[i]),
        forall|i: int| text.len() - trailing_blanks(text) <= i < text.len() ==> is_blank(text[i]),
        leading_blanks(text) < text.len() ==> !is_blank(text[leading_blanks(text) as int]),
        trailing_blanks(text) < text.len() ==> !is_blank(
            text[text.len() - trailing_blanks(text) - 1],
        ),
        trimmed(text).len() > 0 ==> !is_blank(trimmed(text).first()) && !is_blank(
            trimmed(text).last(),
        ),
    decreases text.len(),
{
    if text.len() > 0 {
        let tail = text.drop_first();
        let front = text.drop_last();
        lemma_trimmed_is_clean(tail);
        lemma_trimmed_is_clean(front);
        assert forall|i: int| 0 <= i < leading_blanks(text) implies is_blank(text[i]) by {
            if i > 0 {
                assert(text[i] == tail[i - 1]);
            }
        }
        assert forall|i: int| text.len() - trailing_blanks(text) <= i < text.len() implies is_blank(
            text[i],
        ) by {
            if i < text.len() - 1 {
                assert(text[i] == front[i]);
            }
        }
        if leading_blanks(text) < text.len() && leading_blanks(text) > 0 {
            assert(text[leading_blanks(text) as int] == tail[leading_blanks(tail) as int]);
        }
        if trailing_blanks(text) < text.len() && trailing_blanks(text) > 0 {
            assert(text[text.len() - trailing_blanks(text) - 1] == front[front.len()
                - trailing_blanks(front) - 1]);
        }
    }
}

/// The line stays within the text and holds no line feed.
proof fn lemma_line_is_one_line(text: Seq<char>)
    ensures
        line_len(text) <= text.len(),
        forall|i: int| 0 <= i < line_len(text) ==> text[i] != '\n',
        line_len(text) < text.len() ==> text[line_len(text) as int] == '\n',
    decreases text.len(),
{
    if text.len() > 0 && text[0] != '\n' {
        let tail = text.drop_first();
        lemma_line_is_one_line(tail);
        assert forall|i: int| 0 <= i < line_len(text) implies text[i] != '\n' by {
            if i > 0 {
                assert(text[i] == tail[i - 1]);
            }
        }
        if line_len(text) < text.len() {
            assert(text[line_len(text) as int] == tail[line_len(tail) as int]);
        }
    }
}

/// Every region of the list is a name and nothing else.
///
/// No region is empty, none begins or ends with a blank, and none holds a
/// line feed: blank lines and the blanks around a name leave no trace. There
/// are no more regions than the text has lines.
pub proof fn lemma_regions_are_clean(text: Seq<char>)
    ensures
        forall|i: int|
            0 <= i < region_list(text).len() ==> {
                let region = #[trigger] region_list(text)[i];
                &&& region.len() > 0
                &&& !is_blank(region.first())
                &&& !is_blank(region.last())
                &&& forall|j: int| 0 <= j < region.len() ==> region[j] != '\n'
            },
        region_list(text).len() <= text.len(),
    decreases text.len(),
{
    if text.len() > 0 {
        let len = line_len(text) as int;
        lemma_line_is_one_line(text);
        let line = text.take(len);
        let region = trimmed(line);
        lemma_trimmed_is_clean(line);
        let rest = if len < text.len() {
            region_list(text.skip(len + 1))
        } else {
            Seq::empty()
        };
        if len < text.len() {
            lemma_regions_are_clean(text.skip(len + 1));
        }
        assert forall|i: int| 0 <= i < region_list(text).len() implies {
            let found = #[trigger] region_list(text)[i];
            &&& found.len() > 0
            &&& !is_blank(found.first())
            &&& !is_blank(found.last())
            &&& forall|j: int| 0 <= j < found.len() ==> found[j] != '\n'
        } by {
            if region.len() > 0 {
                if i == 0 {
                    assert(region_list(text)[0] == region);
                    assert forall|j: int| 0 <= j < region.len() implies region[j] != '\n' by {
                        assert(region[j] == text[leading_blanks(line) + j]);
                    }
                } else {
                    assert(region_list(text)[i] == rest[i - 1]);
                }
            } else {
                assert(region_list(text)[i] == rest[i]);
            }
        }
    }
}

/// Tells whether the character is a blank.
pub fn is_whitespace(c: char) -> (blank: bool)
    ensures
        blank == is_blank(c),
{
    let code: u32 = c as u32;
    (0x09 <= code && code <= 0x0D) || code == 0x20 || code == 0x85 || code == 0xA0 || code
        == 0x1680 || (0x2000 <= code && code <= 0x200A) || code == 0x2028 || code == 0x2029 || code
        == 0x202F || code == 0x205F || code == 0x3000
}

/// The characters of the text, in order.
fn characters(text: &str) -> (chars: Vec<char>)
    ensures
        chars@ == text@,
{
    let mut chars: Vec<char> = Vec::new();
    for c in it: text.chars()
        invariant
            it.seq() == text@,
            chars@ == it.seq().take(it.index()),
    {
        proof {
            assert(it.seq().take(it.index() + 1) =~= it.seq().take(it.index()).push(c));
        }
        chars.push(c);
    }
    proof {
        assert(text@.take(text@.len() as int) =~= text@);
    }
    chars
}

/// Reads the regions that the text lists.
pub fn parse_region_list(text: &str) -> (regions: Vec<String>)
    ensures
        identifier_views(regions@) == region_list(text@),
{
    let chars = characters(text);
    let total = chars.len();
    let mut regions: Vec<String> = Vec::new();
    let mut line_start: usize = 0;
    proof {
        assert(text@.skip(0) =~= text@);
        assert(identifier_views(regions@) + region_list(text@.skip(0)) =~= region_list(text@));
    }
    while line_start < total
        invariant
            chars@ == text@,
            total == chars.len(),
            line_start <= total,
            identifier_views(regions@) + region_list(text@.skip(line_start as int))
                == region_list(text@),
        decreases total - line_start,
    {
        let ghost rest = text@.skip(line_start as int);
        let mut line_end = line_start;
        while line_end < total && chars[line_end] != '\n'
            invariant
                chars@ == text@,
                total == chars.len(),
                line_start <= line_end <= total,
                forall|i: int| line_start <= i < line_end ==> text@[i] != '\n',
            decreases total - line_end,
        {
            line_end += 1;
        }
        let ghost line = text@.subrange(line_start as int, line_end as int);
        let mut from = line_start;
        while from < line_end && is_whitespace(chars[from])
            invariant
                chars@ == text@,
                total == chars.len(),
                line_start <= from <= line_end <= total,
                forall|i: int| line_start <= i < from ==> is_blank(text@[i]),
            decreases line_end - from,
        {
            from += 1;
        }
        let mut to = line_end;
        while from < to && is_whitespace(chars[to - 1])
            invariant
                chars@ == text@,
                total == chars.len(),
                from <= to <= line_end <= total,
                forall|i: int| to <= i < line_end ==> is_blank(text@[i]),
            decreases to - from,
        {
            to -= 1;
        }
        proof {
            lemma_line_len(rest, line_end - line_start);
            assert(rest.take(line_end - line_start) =~= line);
            lemma_leading_blanks(line, from - line_start);
            if from < line_end {
                lemma_trailing_blanks(line, line_end - to);
                assert(trimmed(line) =~= text@.subrange(from as int, to as int));
            } else {
                assert(trimmed(line) =~= text@.subrange(from as int, to as int));
            }
            if line_end < total {
                assert(rest.skip(line_end - line_start + 1) =~= text@.skip(line_end as int + 1));
            }
        }
        let ghost before = regions@;
        if from < to {
            let region = text.substring_char(from, to).to_owned();
            regions.push(region);
            proof {
                assert(identifier_views(regions@) =~= identifier_views(before).push(
                    text@.subrange(from as int, to as int),
                ));
            }
        }
        if line_end < total {
            line_start = line_end + 1;
        } else {
            line_start = total;
            proof {
                assert(text@.skip(total as int).len() == 0);
            }
        }
        proof {
            let listed = region_list(text@.skip(line_start as int));
            let found = trimmed(line);
            if found.len() > 0 {
                assert(identifier_views(before) + (seq![found] + listed) =~= identifier_views(
                    before,
                ).push(found) + listed);
            }
        }
    }
    proof {
        assert(region_list(text@.skip(line_start as int)) =~= Seq::<Seq<char>>::empty());
        assert(identifier_views(regions@) + Seq::<Seq<char>>::empty() =~= identifier_views(
            regions@,
        ));
    }
    regions
}

} // verus!

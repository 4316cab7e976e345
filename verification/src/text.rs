//! Text as sequences of characters: lines, blank lines and trimming.

use vstd::prelude::*;
use vstd::slice::slice_subrange;

verus! {

/// Whether `char::is_whitespace` holds of a character.
pub uninterp spec fn char_is_whitespace(c: char) -> bool;

/// `char::is_whitespace` of the standard library. Its result is a property
/// of the character alone (Unicode's `White_Space`); nothing more is
/// claimed of it than that it has a name.
pub assume_specification[ char::is_whitespace ](c: char) -> (b: bool)
    ensures
        b == char_is_whitespace(c),
;

/// Whether `char::is_alphanumeric` holds of a character.
pub uninterp spec fn char_is_alphanumeric(c: char) -> bool;

/// `char::is_alphanumeric` of the standard library. Its result is a
/// property of the character alone (Unicode's `Alphabetic` and the number
/// categories); nothing more is claimed of it than that it has a name.
pub assume_specification[ char::is_alphanumeric ](c: char) -> (b: bool)
    ensures
        b == char_is_alphanumeric(c),
;

/// What `str::to_lowercase` makes of a string.
pub uninterp spec fn str_to_lowercase(s: Seq<char>) -> Seq<char>;

/// `str::to_lowercase` of the standard library. The lowercase form follows
/// Unicode's rules, under which a character may become several and may
/// depend on its neighbours, so the result is named as a whole and nothing
/// is claimed of its length or its characters.
pub assume_specification[ str::to_lowercase ](s: &str) -> (lower: String)
    ensures
        lower@ == str_to_lowercase(s@),
;

/// Builds a `String` out of characters with the standard library's
/// `FromIterator<&char>` for `String`, which appends them in order.
#[verifier::external_body]
pub(crate) fn string_from_chars(chars: &[char]) -> (s: String)
    ensures
        s@ == chars@,
{
    String::from_iter(chars)
}

/// The characters of a string, in order.
pub fn chars_of(s: &str) -> (chars: Vec<char>)
    ensures
        chars@ == s@,
{
    let mut chars: Vec<char> = Vec::new();
    for c in it: s.chars()
        invariant
            it.seq() == s@,
            chars@ == it.seq().take(it.index() as int),
    {
        proof {
            assert(it.seq().take(it.index() + 1) =~= it.seq().take(it.index() as int).push(c));
        }
        chars.push(c);
    }
    chars
}

/// The string made of `chars[from..to]`.
pub fn string_of(chars: &Vec<char>, from: usize, to: usize) -> (s: String)
    requires
        from <= to <= chars@.len(),
    ensures
        s@ == chars@.subrange(from as int, to as int),
{
    string_from_chars(slice_subrange(chars.as_slice(), from, to))
}

/// `s` without its longest prefix of characters that satisfy `strip`.
pub open spec fn skip_leading(s: Seq<char>, strip: spec_fn(char) -> bool) -> Seq<char>
    decreases s.len(),
{
    if s.len() > 0 && strip(s[0]) {
        skip_leading(s.skip(1), strip)
    } else {
        s
    }
}

/// `s` without its longest suffix of characters that satisfy `strip`.
pub open spec fn skip_trailing(s: Seq<char>, strip: spec_fn(char) -> bool) -> Seq<char>
    decreases s.len(),
{
    if s.len() > 0 && strip(s.last()) {
        skip_trailing(s.drop_last(), strip)
    } else {
        s
    }
}

/// The number of characters at the start of `s` that satisfy `strip`.
pub open spec fn leading(s: Seq<char>, strip: spec_fn(char) -> bool) -> nat {
    (s.len() - skip_leading(s, strip).len()) as nat
}

/// `s` with the characters that satisfy `strip` removed from both ends.
pub open spec fn trim_matching(s: Seq<char>, strip: spec_fn(char) -> bool) -> Seq<char> {
    skip_trailing(skip_leading(s, strip), strip)
}

/// `s` without leading and trailing whitespace.
pub open spec fn trim(s: Seq<char>) -> Seq<char> {
    trim_matching(s, |c: char| char_is_whitespace(c))
}

/// A line is blank when nothing is left of it after trimming.
pub open spec fn is_blank(line: Seq<char>) -> bool {
    trim(line).len() == 0
}

/// What is left after trimming neither starts nor ends with a character
/// that is stripped.
pub proof fn lemma_trimmed_ends_are_kept(s: Seq<char>, strip: spec_fn(char) -> bool)
    ensures
        trim_matching(s, strip).len() > 0 ==> {
            &&& !strip(trim_matching(s, strip)[0])
            &&& !strip(trim_matching(s, strip).last())
        },
{
    lemma_skip_leading_shape(s, strip);
    lemma_skip_trailing_shape(skip_leading(s, strip), strip);
}

/// A line is blank exactly when it holds nothing but whitespace.
pub proof fn lemma_blank_is_all_whitespace(line: Seq<char>)
    ensures
        is_blank(line) <==> forall|i: int| 0 <= i < line.len() ==> char_is_whitespace(#[trigger] line[i]),
{
    let strip = |c: char| char_is_whitespace(c);
    lemma_skip_leading_shape(line, strip);
    lemma_skip_trailing_shape(skip_leading(line, strip), strip);
}

/// What `skip_leading` returns: a suffix of `s` that starts with a kept
/// character, behind characters that are all stripped.
pub proof fn lemma_skip_leading_shape(s: Seq<char>, strip: spec_fn(char) -> bool)
    ensures
        skip_leading(s, strip).len() <= s.len(),
        skip_leading(s, strip) == s.skip(s.len() - skip_leading(s, strip).len()),
        forall|i: int| 0 <= i < s.len() - skip_leading(s, strip).len() ==> strip(#[trigger] s[i]),
        skip_leading(s, strip).len() > 0 ==> !strip(skip_leading(s, strip)[0]),
    decreases s.len(),
{
    if s.len() > 0 && strip(s[0]) {
        let tail = s.skip(1);
        lemma_skip_leading_shape(tail, strip);
        let kept = skip_leading(tail, strip);
        assert forall|i: int| 0 <= i < s.len() - kept.len() implies strip(#[trigger] s[i]) by {
            if i > 0 {
                assert(tail[i - 1] == s[i]);
            }
        }
    }
}

/// What `skip_trailing` returns: a prefix of `s` that ends with a kept
/// character, before characters that are all stripped.
pub proof fn lemma_skip_trailing_shape(s: Seq<char>, strip: spec_fn(char) -> bool)
    ensures
        skip_trailing(s, strip).len() <= s.len(),
        skip_trailing(s, strip) == s.take(skip_trailing(s, strip).len() as int),
        forall|i: int| skip_trailing(s, strip).len() <= i < s.len() ==> strip(#[trigger] s[i]),
        skip_trailing(s, strip).len() > 0 ==> !strip(skip_trailing(s, strip).last()),
    decreases s.len(),
{
    if s.len() > 0 && strip(s.last()) {
        let init = s.drop_last();
        lemma_skip_trailing_shape(init, strip);
        let kept = skip_trailing(init, strip);
        assert forall|i: int| kept.len() <= i < s.len() implies strip(#[trigger] s[i]) by {
            if i < s.len() - 1 {
                assert(init[i] == s[i]);
            }
        }
    }
}

/// A range whose first character is kept is what `skip_leading` returns for
/// any range that adds only stripped characters in front of it.
pub proof fn lemma_skip_leading_found(s: Seq<char>, strip: spec_fn(char) -> bool, k: int)
    requires
        0 <= k <= s.len(),
        forall|i: int| 0 <= i < k ==> strip(#[trigger] s[i]),
        k < s.len() ==> !strip(s[k]),
    ensures
        skip_leading(s, strip) == s.skip(k),
    decreases k,
{
    if k > 0 {
        let tail = s.skip(1);
        assert forall|i: int| 0 <= i < k - 1 implies strip(#[trigger] tail[i]) by {
            assert(tail[i] == s[i + 1]);
        }
        lemma_skip_leading_found(tail, strip, k - 1);
        assert(tail.skip(k - 1) =~= s.skip(k));
    }
}

/// A range whose last character is kept is what `skip_trailing` returns for
/// any range that adds only stripped characters behind it.
pub proof fn lemma_skip_trailing_found(s: Seq<char>, strip: spec_fn(char) -> bool, k: int)
    requires
        0 <= k <= s.len(),
        forall|i: int| k <= i < s.len() ==> strip(#[trigger] s[i]),
        k > 0 ==> !strip(s[k - 1]),
    ensures
        skip_trailing(s, strip) == s.take(k),
    decreases s.len() - k,
{
    if k < s.len() {
        let init = s.drop_last();
        assert forall|i: int| k <= i < init.len() implies strip(#[trigger] init[i]) by {
            assert(init[i] == s[i]);
        }
        lemma_skip_trailing_found(init, strip, k);
        assert(init.take(k) =~= s.take(k));
    }
}

/// The position of the first line break in `s`, or the length of `s` if it
/// holds none.
pub open spec fn first_newline(s: Seq<char>) -> int
    decreases s.len(),
{
    if s.len() == 0 || s[0] == '\n' {
        0
    } else {
        1 + first_newline(s.skip(1))
    }
}

/// The pieces of `s` between its line breaks. A text without a line break
/// is one line; a text that ends in a line break has an empty last line.
pub open spec fn split_lines(s: Seq<char>) -> Seq<Seq<char>>
    decreases s.len(),
{
    let end = first_newline(s);
    if 0 <= end < s.len() {
        seq![s.take(end)] + split_lines(s.skip(end + 1))
    } else {
        seq![s]
    }
}

/// The lines put together again, with a line break between one line and
/// the next.
pub open spec fn join_lines(lines: Seq<Seq<char>>) -> Seq<char>
    decreases lines.len(),
{
    if lines.len() == 0 {
        Seq::empty()
    } else if lines.len() == 1 {
        lines[0]
    } else {
        lines[0] + seq!['\n'] + join_lines(lines.skip(1))
    }
}

/// Splitting loses nothing: there is at least one line, no line holds a
/// line break, and the lines joined by line breaks are the text.
pub proof fn lemma_split_lines(s: Seq<char>)
    ensures
        split_lines(s).len() >= 1,
        forall|i: int, j: int|
            0 <= i < split_lines(s).len() && 0 <= j < split_lines(s)[i].len() ==> (
            #[trigger] split_lines(s)[i][j]) != '\n',
        join_lines(split_lines(s)) == s,
    decreases s.len(),
{
    lemma_first_newline(s);
    let end = first_newline(s);
    if end < s.len() {
        let rest = s.skip(end + 1);
        lemma_split_lines(rest);
        let lines = split_lines(s);
        assert(lines.skip(1) =~= split_lines(rest));
        assert forall|i: int, j: int|
            0 <= i < lines.len() && 0 <= j < lines[i].len() implies (#[trigger] lines[i][j])
            != '\n' by {
            if i > 0 {
                assert(lines[i] == split_lines(rest)[i - 1]);
            }
        }
        assert(join_lines(lines) =~= s);
    }
}

/// The lines of `s` that hold more than whitespace, in order.
pub open spec fn non_blank_lines(s: Seq<char>) -> Seq<Seq<char>> {
    split_lines(s).filter(|line: Seq<char>| !is_blank(line))
}

/// The lines of a document that are classified: its non-blank lines, each
/// trimmed.
pub open spec fn content_lines(s: Seq<char>) -> Seq<Seq<char>> {
    non_blank_lines(s).map_values(|line: Seq<char>| trim(line))
}

/// `first_newline` is the position of a line break, or the length, and
/// no line break stands before it.
pub proof fn lemma_first_newline(s: Seq<char>)
    ensures
        0 <= first_newline(s) <= s.len(),
        first_newline(s) < s.len() ==> s[first_newline(s)] == '\n',
        forall|i: int| 0 <= i < first_newline(s) ==> #[trigger] s[i] != '\n',
    decreases s.len(),
{
    if !(s.len() == 0 || s[0] == '\n') {
        let tail = s.skip(1);
        lemma_first_newline(tail);
        assert forall|i: int| 0 <= i < first_newline(s) implies #[trigger] s[i] != '\n' by {
            if i > 0 {
                assert(tail[i - 1] == s[i]);
            }
        }
    }
}

/// A position with no line break before it, which is a line break or the
/// end, is `first_newline`.
pub proof fn lemma_first_newline_found(s: Seq<char>, k: int)
    requires
        0 <= k <= s.len(),
        forall|i: int| 0 <= i < k ==> #[trigger] s[i] != '\n',
        k < s.len() ==> s[k] == '\n',
    ensures
        first_newline(s) == k,
    decreases k,
{
    if k > 0 {
        let tail = s.skip(1);
        assert forall|i: int| 0 <= i < k - 1 implies #[trigger] tail[i] != '\n' by {
            assert(tail[i] == s[i + 1]);
        }
        lemma_first_newline_found(tail, k - 1);
    }
}

/// The bounds of `chars[from..to]` without its leading and trailing
/// whitespace.
pub fn trim_bounds(chars: &Vec<char>, from: usize, to: usize) -> (bounds: (usize, usize))
    requires
        from <= to <= chars@.len(),
    ensures
        from <= bounds.0 <= bounds.1 <= to,
        bounds.0 - from == leading(
            chars@.subrange(from as int, to as int),
            |c: char| char_is_whitespace(c),
        ),
        chars@.subrange(bounds.0 as int, bounds.1 as int) == trim(
            chars@.subrange(from as int, to as int),
        ),
{
    let ghost strip = |c: char| char_is_whitespace(c);
    let ghost line = chars@.subrange(from as int, to as int);
    let mut a: usize = from;
    while a < to && chars[a].is_whitespace()
        invariant
            from <= a <= to <= chars@.len(),
            forall|i: int| from <= i < a ==> char_is_whitespace(#[trigger] chars@[i]),
        decreases to - a,
    {
        a += 1;
    }
    let mut b: usize = to;
    while b > a && chars[b - 1].is_whitespace()
        invariant
            a <= b <= to <= chars@.len(),
            forall|i: int| b <= i < to ==> char_is_whitespace(#[trigger] chars@[i]),
        decreases b - a,
    {
        b -= 1;
    }
    proof {
        assert forall|i: int| 0 <= i < a - from implies strip(#[trigger] line[i]) by {
            assert(line[i] == chars@[from + i]);
        }
        lemma_skip_leading_found(line, strip, a - from);
        let rest = line.skip(a - from);
        assert forall|i: int| b - a <= i < rest.len() implies strip(#[trigger] rest[i]) by {
            assert(rest[i] == chars@[a + i]);
        }
        lemma_skip_trailing_found(rest, strip, b - a);
        assert(rest.take(b - a) =~= chars@.subrange(a as int, b as int));
    }
    (a, b)
}

/// The views of a list of strings, in the same order.
pub open spec fn string_views(strings: Seq<String>) -> Seq<Seq<char>> {
    strings.map_values(|s: String| s@)
}

/// The lines of a document that are classified: splits it at line breaks,
/// leaves out the lines that hold only whitespace and trims the others.
pub fn content_lines_of(document: &str) -> (lines: Vec<String>)
    ensures
        string_views(lines@) == content_lines(document@),
{
    let chars = chars_of(document);
    let n = chars.len();
    let ghost keep = |line: Seq<char>| !is_blank(line);
    let ghost trimmed = |line: Seq<char>| trim(line);
    let ghost mut done: Seq<Seq<char>> = Seq::empty();
    let mut lines: Vec<String> = Vec::new();
    let mut start: usize = 0;
    proof {
        assert(chars@.skip(0) =~= chars@);
        assert(done.filter(keep) =~= Seq::<Seq<char>>::empty()) by {
            reveal(Seq::filter);
        }
    }
    loop
        invariant_except_break
            split_lines(chars@) == done + split_lines(chars@.skip(start as int)),
            string_views(lines@) == done.filter(keep).map_values(trimmed),
        invariant
            n == chars@.len(),
            chars@ == document@,
            start <= n,
            keep == (|line: Seq<char>| !is_blank(line)),
            trimmed == (|line: Seq<char>| trim(line)),
        ensures
            string_views(lines@) == content_lines(document@),
        decreases n - start,
    {
        let ghost rest = chars@.skip(start as int);
        let mut end: usize = start;
        while end < n && chars[end] != '\n'
            invariant
                start <= end <= n,
                n == chars@.len(),
                forall|i: int| start <= i < end ==> #[trigger] chars@[i] != '\n',
            decreases n - end,
        {
            end += 1;
        }
        let ghost line = chars@.subrange(start as int, end as int);
        proof {
            assert forall|i: int| 0 <= i < end - start implies #[trigger] rest[i] != '\n' by {
                assert(rest[i] == chars@[start + i]);
            }
            lemma_first_newline_found(rest, end - start);
            assert(rest.take(end - start) =~= line);
        }
        let (a, b) = trim_bounds(&chars, start, end);
        let ghost before = lines@;
        if a < b {
            let text = string_of(&chars, a, b);
            lines.push(text);
        }
        proof {
            Seq::lemma_filter_push(done, line, keep);
            assert(string_views(lines@) =~= done.push(line).filter(keep).map_values(trimmed)) by {
                if a < b {
                    assert(string_views(lines@) =~= string_views(before).push(trim(line)));
                }
            }
        }
        if end == n {
            proof {
                assert(done + seq![line] =~= done.push(line));
            }
            break;
        }
        proof {
            assert(rest.skip(end - start + 1) =~= chars@.skip(end + 1));
            assert(done + (seq![line] + split_lines(chars@.skip(end + 1))) =~= done.push(line)
                + split_lines(chars@.skip(end + 1)));
            done = done.push(line);
        }
        start = end + 1;
    }
    lines
}

} // verus!

//! Paths as text: splitting on `::`, trimming, and replacing characters.
use vstd::prelude::*;
use vstd::string::*;

verus! {

/// Whether `c` has the Unicode property `White_Space`.
pub open spec fn is_white_space(c: char) -> bool {
    let n = c as u32;
    ||| 0x9 <= n <= 0xD
    ||| n == 0x20
    ||| n == 0x85
    ||| n == 0xA0
    ||| n == 0x1680
    ||| 0x2000 <= n <= 0x200A
    ||| n == 0x2028
    ||| n == 0x2029
    ||| n == 0x202F
    ||| n == 0x205F
    ||| n == 0x3000
}

/// `s` without the white space at its start.
pub open spec fn trim_start(s: Seq<char>) -> Seq<char>
    decreases s.len(),
{
    if s.len() > 0 && is_white_space(s.first()) {
        trim_start(s.drop_first())
    } else {
        s
    }
}

/// `s` without the white space at its end.
pub open spec fn trim_end(s: Seq<char>) -> Seq<char>
    decreases s.len(),
{
    if s.len() > 0 && is_white_space(s.last()) {
        trim_end(s.drop_last())
    } else {
        s
    }
}

/// `s` without the white space at either end.
pub open spec fn trim(s: Seq<char>) -> Seq<char> {
    trim_end(trim_start(s))
}

/// Whether a path separator, `::`, starts at position `i` of `s`.
pub open spec fn separator_at(s: Seq<char>, i: int) -> bool {
    0 <= i && i + 1 < s.len() && s[i] == ':' && s[i + 1] == ':'
}

/// The position of the first path separator at or after `from`, or the length of `s`
/// where there is none.
pub open spec fn next_separator(s: Seq<char>, from: int) -> int
    decreases s.len() - from,
{
    if from >= s.len() || separator_at(s, from) {
        if from > s.len() { s.len() as int } else { from }
    } else {
        next_separator(s, from + 1)
    }
}

/// What stands between the path separators of `s`, from position `from` on. Separators are found
/// from left to right and do not overlap.
pub open spec fn split_from(s: Seq<char>, from: int) -> Seq<Seq<char>>
    decreases s.len() - from,
    via split_from_decreases
{
    if from < 0 || from > s.len() {
        seq![]
    } else {
        let end = next_separator(s, from);
        if end < s.len() {
            seq![s.subrange(from, end)] + split_from(s, end + 2)
        } else {
            seq![s.subrange(from, end)]
        }
    }
}

#[via_fn]
proof fn split_from_decreases(s: Seq<char>, from: int) {
    if !(from < 0 || from > s.len()) {
        lemma_next_separator(s, from);
    }
}

pub proof fn lemma_next_separator(s: Seq<char>, from: int)
    requires
        0 <= from <= s.len(),
    ensures
        from <= next_separator(s, from) <= s.len(),
        next_separator(s, from) < s.len() ==> separator_at(s, next_separator(s, from)),
        forall|j: int| from <= j < next_separator(s, from) ==> !separator_at(s, j),
    decreases s.len() - from,
{
    if from < s.len() && !separator_at(s, from) {
        lemma_next_separator(s, from + 1);
    }
}

/// The segments of the path `s`: what stands between its separators, trimmed.
pub open spec fn path_segments(s: Seq<char>) -> Seq<Seq<char>> {
    split_from(s, 0).map_values(|piece: Seq<char>| trim(piece))
}

/// Whether `c` has the Unicode property `White_Space`.
fn white_space(c: char) -> (res: bool)
    ensures
        res == is_white_space(c),
{
    let n: u32 = c as u32;
    (0x9 <= n && n <= 0xD) || n == 0x20 || n == 0x85 || n == 0xA0 || n == 0x1680 || (0x2000 <= n
        && n <= 0x200A) || n == 0x2028 || n == 0x2029 || n == 0x202F || n == 0x205F || n == 0x3000
}

/// The characters of `s`.
fn characters(s: &str) -> (res: Vec<char>)
    ensures
        res@ == s@,
{
    let mut res: Vec<char> = Vec::new();
    for c in it: s.chars()
        invariant
            it.seq() == s@,
            res@ == s@.take(it.index()),
    {
        res.push(c);
    }
    res
}

/// What stands in `s` from position `from` up to position `to`, trimmed.
fn trimmed(s: &str, chars: &Vec<char>, from: usize, to: usize) -> (res: String)
    requires
        chars@ == s@,
        from <= to <= s@.len(),
    ensures
        res@ == trim(s@.subrange(from as int, to as int)),
{
    let ghost piece = s@.subrange(from as int, to as int);
    let mut start: usize = from;
    while start < to && white_space(chars[start])
        invariant
            chars@ == s@,
            from <= start <= to <= s@.len(),
            trim_start(s@.subrange(start as int, to as int)) == trim_start(piece),
        decreases to - start,
    {
        assert(s@.subrange(start as int, to as int).drop_first() == s@.subrange(
            start + 1,
            to as int,
        ));
        start = start + 1;
    }
    let ghost tail = s@.subrange(start as int, to as int);
    let mut end: usize = to;
    while start < end && white_space(chars[end - 1])
        invariant
            chars@ == s@,
            start <= end <= to <= s@.len(),
            trim_end(s@.subrange(start as int, end as int)) == trim_end(tail),
        decreases end - start,
    {
        assert(s@.subrange(start as int, end as int).drop_last() == s@.subrange(
            start as int,
            end - 1,
        ));
        end = end - 1;
    }
    s.substring_char(start, end).to_owned()
}

/// The characters of each string.
pub open spec fn views(strings: Seq<String>) -> Seq<Seq<char>> {
    strings.map_values(|s: String| s@)
}

/// Splits the path `s` into its segments.
pub fn split_path(s: &str) -> (res: Vec<String>)
    ensures
        views(res@) == path_segments(s@),
{
    let chars = characters(s);
    let n: usize = chars.len();
    let mut res: Vec<String> = Vec::new();
    let mut start: usize = 0;
    let mut i: usize = 0;
    let ghost trimmer = |piece: Seq<char>| trim(piece);
    while i < n
        invariant
            chars@ == s@,
            n == s@.len(),
            start <= i <= n,
            next_separator(s@, start as int) == next_separator(s@, i as int),
            trimmer == (|piece: Seq<char>| trim(piece)),
            views(res@) + split_from(s@, start as int).map_values(trimmer) == path_segments(s@),
        decreases n - i,
    {
        if i + 1 < n && chars[i] == ':' && chars[i + 1] == ':' {
            let ghost before = res@;
            res.push(trimmed(s, &chars, start, i));
            proof {
                assert(next_separator(s@, start as int) == i);
                let piece = s@.subrange(start as int, i as int);
                let rest = split_from(s@, i + 2);
                assert(split_from(s@, start as int) == seq![piece] + rest);
                assert(views(res@) =~= views(before).push(trim(piece)));
                assert((seq![piece] + rest).map_values(trimmer) =~= seq![trim(piece)]
                    + rest.map_values(trimmer));
                assert(views(res@) + rest.map_values(trimmer) =~= views(before) + (seq![piece]
                    + rest).map_values(trimmer));
            }
            start = i + 2;
            i = start;
        } else {
            i = i + 1;
        }
    }
    let ghost before = res@;
    res.push(trimmed(s, &chars, start, n));
    proof {
        assert(next_separator(s@, start as int) == n);
        let piece = s@.subrange(start as int, n as int);
        assert(split_from(s@, start as int) == seq![piece]);
        assert(seq![piece].map_values(trimmer) =~= seq![trim(piece)]);
        assert(views(res@) =~= views(before) + seq![trim(piece)]);
    }
    res
}

/// A path has at least one segment.
pub proof fn lemma_path_has_a_segment(s: Seq<char>)
    ensures
        path_segments(s).len() > 0,
{
    lemma_next_separator(s, 0);
}

/// How many times `word` stands at the start of `words`.
pub open spec fn leading(words: Seq<Seq<char>>, word: Seq<char>) -> nat
    decreases words.len(),
{
    if words.len() > 0 && words[0] == word {
        1 + leading(words.drop_first(), word)
    } else {
        0
    }
}

pub proof fn lemma_leading(words: Seq<Seq<char>>, word: Seq<char>)
    ensures
        leading(words, word) <= words.len(),
        forall|i: int| 0 <= i < leading(words, word) ==> words[i] == word,
    decreases words.len(),
{
    if words.len() > 0 && words[0] == word {
        lemma_leading(words.drop_first(), word);
        assert forall|i: int| 0 <= i < leading(words, word) implies words[i] == word by {
            if i > 0 {
                assert(words[i] == words.drop_first()[i - 1]);
            }
        }
    }
}

/// Counts the occurrences of `word` at the start of `words`.
pub fn count_leading(words: &Vec<String>, word: &str) -> (res: usize)
    ensures
        res == leading(views(words@), word@),
        res <= words@.len(),
{
    let word = word.to_owned();
    let mut n: usize = 0;
    let ghost all = views(words@);
    assert(all.skip(0) == all);
    while n < words.len() && words[n] == word
        invariant
            n <= words@.len(),
            all == views(words@),
            leading(all, word@) == n + leading(all.skip(n as int), word@),
        decreases words@.len() - n,
    {
        assert(all.skip(n as int).drop_first() == all.skip(n + 1));
        assert(all.skip(n as int)[0] == words@[n as int]@);
        n = n + 1;
    }
    assert(n < words@.len() ==> all.skip(n as int)[0] == words@[n as int]@);
    n
}

/// `s` with each hyphen replaced by an underscore.
pub open spec fn underscored(s: Seq<char>) -> Seq<char> {
    s.map_values(|c: char| if c == '-' { '_' } else { c })
}

/// Replaces each hyphen of `s` by an underscore.
pub fn replace_hyphens(s: &str) -> (res: String)
    ensures
        res@ == underscored(s@),
{
    let chars = characters(s);
    let n: usize = chars.len();
    let mut res: String = String::new();
    let mut start: usize = 0;
    let mut i: usize = 0;
    proof {
        reveal_strlit("_");
    }
    while i < n
        invariant
            chars@ == s@,
            n == s@.len(),
            start <= i <= n,
            "_"@ == seq!['_'],
            forall|j: int| start <= j < i ==> s@[j] != '-',
            res@ == underscored(s@.take(start as int)),
        decreases n - i,
    {
        if chars[i] == '-' {
            res.append(s.substring_char(start, i));
            res.append("_");
            assert(res@ =~= underscored(s@.take(i + 1)));
            start = i + 1;
        }
        i = i + 1;
    }
    res.append(s.substring_char(start, n));
    assert(res@ =~= underscored(s@));
    res
}

/// The words `words`, with `sep` between each two of them.
pub open spec fn joined(words: Seq<Seq<char>>, sep: Seq<char>) -> Seq<char>
    decreases words.len(),
{
    if words.len() == 0 {
        seq![]
    } else if words.len() == 1 {
        words[0]
    } else {
        joined(words.drop_last(), sep) + sep + words.last()
    }
}

/// Whether `word` can be a segment of a path: it holds no colon, and no white space at its ends.
pub open spec fn is_segment(word: Seq<char>) -> bool {
    !word.contains(':') && trim(word) == word
}

/// Splitting undoes joining: the segments of joined segments are these segments.
pub proof fn law_split_undoes_join(words: Seq<Seq<char>>)
    requires
        words.len() > 0,
        forall|i: int| 0 <= i < words.len() ==> is_segment(#[trigger] words[i]),
    ensures
        path_segments(joined(words, "::"@)) == words,
{
    lemma_split_joined(words);
    assert forall|i: int| 0 <= i < words.len() implies trim(#[trigger] words[i]) == words[i] by {
        assert(is_segment(words[i]));
    }
    assert(path_segments(joined(words, "::"@)) =~= words);
}

proof fn lemma_split_joined(words: Seq<Seq<char>>)
    requires
        words.len() > 0,
        forall|i: int| 0 <= i < words.len() ==> is_segment(#[trigger] words[i]),
    ensures
        split_from(joined(words, "::"@), 0) == words,
    decreases words.len(),
{
    reveal_strlit("::");
    let s = joined(words, "::"@);
    let head = words[0];
    assert(is_segment(head));
    if words.len() == 1 {
        lemma_no_separator(s, 0, s.len() as int);
        assert(s.subrange(0, s.len() as int) =~= s);
        assert(split_from(s, 0) =~= words);
    } else {
        let rest = words.drop_first();
        let tail = joined(rest, "::"@);
        let front = head + "::"@;
        lemma_joined_front(words, "::"@);
        assert(s == front + tail);
        lemma_no_separator(s, 0, head.len() as int);
        assert(separator_at(s, head.len() as int));
        assert(next_separator(s, head.len() as int) == head.len());
        assert(s.subrange(0, head.len() as int) =~= head);
        lemma_split_shift(front, tail, 0);
        assert forall|i: int| 0 <= i < rest.len() implies is_segment(#[trigger] rest[i]) by {
            assert(rest[i] == words[i + 1]);
        }
        lemma_split_joined(rest);
        assert(split_from(s, 0) =~= seq![head] + rest);
        assert(seq![head] + rest =~= words);
    }
}

/// Joining can start at the first word as well as at the last.
proof fn lemma_joined_front(words: Seq<Seq<char>>, sep: Seq<char>)
    requires
        words.len() > 1,
    ensures
        joined(words, sep) == words[0] + sep + joined(words.drop_first(), sep),
    decreases words.len(),
{
    let rest = words.drop_first();
    if words.len() == 2 {
        assert(words.drop_last() =~= seq![words[0]]);
        assert(rest =~= seq![words[1]]);
        assert(joined(words.drop_last(), sep) == words[0]);
        assert(joined(rest, sep) == words[1]);
    } else {
        lemma_joined_front(words.drop_last(), sep);
        assert(words.drop_last().drop_first() =~= rest.drop_last());
        assert(joined(words, sep) =~= words[0] + sep + joined(rest, sep));
    }
}

/// Where no character before `to` is a colon, no separator starts before `to`.
proof fn lemma_no_separator(s: Seq<char>, from: int, to: int)
    requires
        0 <= from <= to <= s.len(),
        forall|i: int| from <= i < to ==> s[i] != ':',
    ensures
        next_separator(s, from) == next_separator(s, to),
    decreases to - from,
{
    if from < to {
        lemma_no_separator(s, from + 1, to);
    }
}

/// What stands in front of the position where splitting starts does not matter.
proof fn lemma_split_shift(front: Seq<char>, s: Seq<char>, from: int)
    requires
        0 <= from <= s.len(),
    ensures
        split_from(front + s, front.len() + from) == split_from(s, from),
    decreases s.len() - from,
{
    let all = front + s;
    let end = next_separator(s, from);
    lemma_next_separator(s, from);
    lemma_separator_shift(front, s, from);
    assert(all.subrange(front.len() + from, front.len() + end) =~= s.subrange(from, end));
    if end < s.len() {
        lemma_split_shift(front, s, end + 2);
    }
}

proof fn lemma_separator_shift(front: Seq<char>, s: Seq<char>, from: int)
    requires
        0 <= from <= s.len(),
    ensures
        next_separator(front + s, front.len() + from) == front.len() + next_separator(s, from),
    decreases s.len() - from,
{
    let all = front + s;
    assert(separator_at(all, front.len() + from) == separator_at(s, from));
    if from < s.len() && !separator_at(s, from) {
        lemma_separator_shift(front, s, from + 1);
    }
}

/// Trimming leaves no white space at either end, and trimming again changes nothing.
pub proof fn law_trimming(s: Seq<char>)
    ensures
        trim(s).len() > 0 ==> !is_white_space(trim(s).first()) && !is_white_space(trim(s).last()),
        trim(trim(s)) == trim(s),
{
    lemma_trim_start(s);
    lemma_trim_end(trim_start(s));
}

proof fn lemma_trim_start(s: Seq<char>)
    ensures
        trim_start(s).len() > 0 ==> !is_white_space(trim_start(s).first()),
    decreases s.len(),
{
    if s.len() > 0 && is_white_space(s.first()) {
        lemma_trim_start(s.drop_first());
    }
}

proof fn lemma_trim_end(s: Seq<char>)
    ensures
        trim_end(s).len() > 0 ==> !is_white_space(trim_end(s).last()),
        trim_end(s).len() > 0 ==> trim_end(s).first() == s.first(),
    decreases s.len(),
{
    if s.len() > 0 && is_white_space(s.last()) {
        lemma_trim_end(s.drop_last());
    }
}

/// Calls `itertools::Itertools::join` on an iterator over `words`, which writes the words one
/// after the other, with `sep` between each two of them, and nothing where there are no words.
#[verifier::external_body]
pub(crate) fn join(words: &[String], sep: &str) -> (res: String)
    ensures
        res@ == joined(views(words@), sep@),
{
    itertools::Itertools::join(&mut words.iter(), sep)
}

} // verus!

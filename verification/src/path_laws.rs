//! What the absolute path of a component holds, segment by segment and character by character.
use crate::reflection::{climbs, lemma_keywords_differ, RawIdentifiers};
use crate::text::{
    is_white_space, joined, leading, lemma_next_separator, next_separator, path_segments,
    separator_at, split_from, trim, trim_end, trim_start, underscored, views,
};
use vstd::prelude::*;

verus! {

proof fn lemma_trim_start(s: Seq<char>) -> (a: int)
    ensures
        0 <= a <= s.len(),
        trim_start(s) == s.subrange(a, s.len() as int),
        forall|j: int| 0 <= j < a ==> is_white_space(#[trigger] s[j]),
        a < s.len() ==> !is_white_space(s[a]),
    decreases s.len(),
{
    if s.len() > 0 && is_white_space(s.first()) {
        let rest = s.drop_first();
        let b = lemma_trim_start(rest);
        assert(rest.subrange(b, rest.len() as int) =~= s.subrange(b + 1, s.len() as int));
        assert forall|j: int| 0 <= j < b + 1 implies is_white_space(#[trigger] s[j]) by {
            if j > 0 {
                assert(rest[j - 1] == s[j]);
            }
        }
        b + 1
    } else {
        assert(s.subrange(0, s.len() as int) =~= s);
        0
    }
}

proof fn lemma_trim_end(s: Seq<char>) -> (b: int)
    ensures
        0 <= b <= s.len(),
        trim_end(s) == s.subrange(0, b),
        forall|j: int| b <= j < s.len() ==> is_white_space(#[trigger] s[j]),
        b > 0 ==> !is_white_space(s[b - 1]),
    decreases s.len(),
{
    if s.len() > 0 && is_white_space(s.last()) {
        let rest = s.drop_last();
        let b = lemma_trim_end(rest);
        assert(rest.subrange(0, b) =~= s.subrange(0, b));
        assert forall|j: int| b <= j < s.len() implies is_white_space(#[trigger] s[j]) by {
            if j < rest.len() {
                assert(rest[j] == s[j]);
            }
        }
        b
    } else {
        assert(s.subrange(0, s.len() as int) =~= s);
        s.len() as int
    }
}

/// A trimmed text is what lies between the white space at the two ends: all before it and all
/// behind it is white space, and it neither starts nor ends with white space.
pub proof fn law_trimmed_text_lies_between_white_space(s: Seq<char>) -> (bounds: (int, int))
    ensures
        0 <= bounds.0 <= bounds.1 <= s.len(),
        trim(s) == s.subrange(bounds.0, bounds.1),
        forall|j: int|
            0 <= j < bounds.0 || bounds.1 <= j < s.len() ==> is_white_space(#[trigger] s[j]),
        bounds.0 < bounds.1 ==> !is_white_space(s[bounds.0]) && !is_white_space(s[bounds.1 - 1]),
{
    let a = lemma_trim_start(s);
    let rest = trim_start(s);
    let b = lemma_trim_end(rest);
    assert(rest.subrange(0, b) =~= s.subrange(a, a + b));
    assert forall|j: int| 0 <= j < a || a + b <= j < s.len() implies is_white_space(
        #[trigger] s[j],
    ) by {
        if j >= a + b {
            assert(rest[j - a] == s[j]);
        }
    }
    (a, a + b)
}

#[verifier::rlimit(40)]
proof fn lemma_pieces(s: Seq<char>, from: int) -> (cuts: (Seq<int>, Seq<int>))
    requires
        0 <= from <= s.len(),
    ensures
        ({
            let (starts, ends) = cuts;
            let n = split_from(s, from).len() as int;
            &&& n > 0
            &&& starts.len() == n
            &&& ends.len() == n
            &&& starts[0] == from
            &&& ends[n - 1] == s.len()
            &&& forall|k: int| 0 <= k < n ==> 0 <= #[trigger] starts[k] <= ends[k] <= s.len()
            &&& forall|k: int|
                0 <= k < n - 1 ==> {
                    &&& starts[k + 1] == #[trigger] ends[k] + 2
                    &&& ends[k] + 1 < s.len()
                    &&& s[ends[k]] == ':'
                    &&& s[ends[k] + 1] == ':'
                }
            &&& forall|k: int, j: int|
                0 <= k < n && #[trigger] starts[k] <= j < ends[k] && j + 1 < s.len() ==> !(
                #[trigger] s[j] == ':' && s[j + 1] == ':')
            &&& forall|k: int|
                0 <= k < n ==> #[trigger] split_from(s, from)[k] == s.subrange(starts[k], ends[k])
        }),
    decreases s.len() - from,
{
    let end = next_separator(s, from);
    lemma_next_separator(s, from);
    assert forall|j: int| from <= j < end && j + 1 < s.len() implies !(#[trigger] s[j] == ':' && s[j
        + 1] == ':') by {
        assert(!separator_at(s, j));
    }
    if end < s.len() {
        assert(separator_at(s, end));
        let (starts, ends) = lemma_pieces(s, end + 2);
        let rest = split_from(s, end + 2);
        let all = split_from(s, from);
        let more = seq![from] + starts;
        let last = seq![end] + ends;
        assert(all == seq![s.subrange(from, end)] + rest);
        assert forall|k: int| 0 <= k < all.len() implies 0 <= #[trigger] more[k] <= last[k]
            <= s.len() by {
            if k > 0 {
                assert(more[k] == starts[k - 1]);
            }
        }
        assert forall|k: int| 0 <= k < all.len() - 1 implies {
            &&& more[k + 1] == #[trigger] last[k] + 2
            &&& last[k] + 1 < s.len()
            &&& s[last[k]] == ':'
            &&& s[last[k] + 1] == ':'
        } by {
            if k > 0 {
                assert(last[k] == ends[k - 1]);
                assert(more[k + 1] == starts[k]);
            }
        }
        assert forall|k: int, j: int|
            0 <= k < all.len() && #[trigger] more[k] <= j < last[k] && j + 1 < s.len() implies !(
        #[trigger] s[j] == ':' && s[j + 1] == ':') by {
            if k > 0 {
                assert(more[k] == starts[k - 1]);
            }
        }
        assert forall|k: int| 0 <= k < all.len() implies #[trigger] all[k] == s.subrange(
            more[k],
            last[k],
        ) by {
            if k > 0 {
                assert(all[k] == rest[k - 1]);
            }
        }
        (more, last)
    } else {
        (seq![from], seq![end])
    }
}

/// The segments of a path lie one behind the other, with two colons between each two of them: the
/// first piece starts with the path, each piece ends where the next two colons begin, the last one
/// at the end of the path, and a segment is its piece without the white space at either end.
#[verifier::rlimit(40)]
#[verifier::spinoff_prover]
pub proof fn law_segments_lie_between_separators(s: Seq<char>) -> (cuts: (
    Seq<int>,
    Seq<int>,
    Seq<int>,
    Seq<int>,
))
    ensures
        ({
            let (starts, firsts, lasts, ends) = cuts;
            let n = path_segments(s).len() as int;
            &&& n > 0
            &&& starts.len() == n
            &&& firsts.len() == n
            &&& lasts.len() == n
            &&& ends.len() == n
            &&& starts[0] == 0
            &&& ends[n - 1] == s.len()
            &&& forall|k: int|
                0 <= k < n ==> 0 <= #[trigger] starts[k] <= firsts[k] <= lasts[k] <= ends[k]
                    <= s.len()
            &&& forall|k: int|
                0 <= k < n - 1 ==> {
                    &&& starts[k + 1] == #[trigger] ends[k] + 2
                    &&& ends[k] + 1 < s.len()
                    &&& s[ends[k]] == ':'
                    &&& s[ends[k] + 1] == ':'
                }
            &&& forall|k: int, j: int|
                0 <= k < n && #[trigger] starts[k] <= j < ends[k] && j + 1 < s.len() ==> !(
                #[trigger] s[j] == ':' && s[j + 1] == ':')
            &&& forall|k: int|
                0 <= k < n ==> #[trigger] path_segments(s)[k] == s.subrange(firsts[k], lasts[k])
            &&& forall|k: int, j: int|
                0 <= k < n && (#[trigger] starts[k] <= j < firsts[k] || lasts[k] <= j < ends[k])
                    ==> is_white_space(#[trigger] s[j])
            &&& forall|k: int|
                0 <= k < n && #[trigger] firsts[k] < lasts[k] ==> !is_white_space(s[firsts[k]])
                    && !is_white_space(s[lasts[k] - 1])
        }),
{
    let (starts, ends) = lemma_pieces(s, 0);
    let n = path_segments(s).len();
    let firsts = Seq::new(n, |k: int| segment_bounds(s, starts[k], ends[k]).0);
    let lasts = Seq::new(n, |k: int| segment_bounds(s, starts[k], ends[k]).1);
    assert forall|k: int| 0 <= k < n implies 0 <= #[trigger] starts[k] <= firsts[k] <= lasts[k]
        <= ends[k] <= s.len() by {
        lemma_segment_bounds(s, starts[k], ends[k]);
    }
    assert forall|k: int| 0 <= k < n implies #[trigger] path_segments(s)[k] == s.subrange(
        firsts[k],
        lasts[k],
    ) by {
        assert(0 <= starts[k]);
        assert(split_from(s, 0)[k] == s.subrange(starts[k], ends[k]));
        lemma_segment_bounds(s, starts[k], ends[k]);
    }
    assert forall|k: int, j: int|
        0 <= k < n && (#[trigger] starts[k] <= j < firsts[k] || lasts[k] <= j < ends[k]) implies is_white_space(
    #[trigger] s[j]) by {
        lemma_segment_bounds(s, starts[k], ends[k]);
    }
    assert forall|k: int| 0 <= k < n && #[trigger] firsts[k] < lasts[k] implies !is_white_space(
        s[firsts[k]],
    ) && !is_white_space(s[lasts[k] - 1]) by {
        assert(0 <= starts[k]);
        lemma_segment_bounds(s, starts[k], ends[k]);
    }
    (starts, firsts, lasts, ends)
}

/// The bounds between which the piece of `s` from `start` to `end` lies when it is trimmed.
spec fn segment_bounds(s: Seq<char>, start: int, end: int) -> (int, int) {
    let (a, b) = trim_bounds(s.subrange(start, end));
    (start + a, start + b)
}

proof fn lemma_segment_bounds(s: Seq<char>, start: int, end: int)
    requires
        0 <= start <= end <= s.len(),
    ensures
        ({
            let (first, last) = segment_bounds(s, start, end);
            &&& start <= first <= last <= end
            &&& trim(s.subrange(start, end)) == s.subrange(first, last)
            &&& forall|j: int|
                start <= j < first || last <= j < end ==> is_white_space(#[trigger] s[j])
            &&& first < last ==> !is_white_space(s[first]) && !is_white_space(s[last - 1])
        }),
{
    let piece = s.subrange(start, end);
    let bounds = law_trimmed_text_lies_between_white_space(piece);
    assert(are_trim_bounds(piece, bounds));
    let (a, b) = trim_bounds(piece);
    assert(are_trim_bounds(piece, (a, b)));
    let (first, last) = segment_bounds(s, start, end);
    assert(piece.subrange(a, b) =~= s.subrange(first, last));
    assert forall|j: int| start <= j < first || last <= j < end implies is_white_space(
        #[trigger] s[j],
    ) by {
        assert(piece[j - start] == s[j]);
    }
}

/// Whether `bounds` are those between which the trimmed text lies in `s`.
spec fn are_trim_bounds(s: Seq<char>, bounds: (int, int)) -> bool {
    &&& 0 <= bounds.0 <= bounds.1 <= s.len()
    &&& trim(s) == s.subrange(bounds.0, bounds.1)
    &&& forall|j: int|
        0 <= j < bounds.0 || bounds.1 <= j < s.len() ==> is_white_space(#[trigger] s[j])
    &&& bounds.0 < bounds.1 ==> !is_white_space(s[bounds.0]) && !is_white_space(s[bounds.1 - 1])
}

/// The bounds between which the trimmed text lies in `s`.
spec fn trim_bounds(s: Seq<char>) -> (int, int) {
    choose|bounds: (int, int)| are_trim_bounds(s, bounds)
}

/// White space is the twenty-five characters that Unicode counts as such.
pub proof fn law_white_space(c: char)
    ensures
        is_white_space(c) <==> seq![
            '\t',
            '\n',
            '\u{B}',
            '\u{C}',
            '\r',
            ' ',
            '\u{85}',
            '\u{A0}',
            '\u{1680}',
            '\u{2000}',
            '\u{2001}',
            '\u{2002}',
            '\u{2003}',
            '\u{2004}',
            '\u{2005}',
            '\u{2006}',
            '\u{2007}',
            '\u{2008}',
            '\u{2009}',
            '\u{200A}',
            '\u{2028}',
            '\u{2029}',
            '\u{202F}',
            '\u{205F}',
            '\u{3000}',
        ].contains(c),
{
    broadcast use vstd::seq_lib::group_seq_properties;

}

/// Joining takes nothing away and adds nothing but the separators: nothing for no words, the word
/// for one word, and for two lists of words, the one joined, a separator, and the other joined.
pub proof fn law_joining(a: Seq<Seq<char>>, b: Seq<Seq<char>>, word: Seq<char>, sep: Seq<char>)
    ensures
        joined(Seq::<Seq<char>>::empty(), sep) == Seq::<char>::empty(),
        joined(seq![word], sep) == word,
        a.len() > 0 && b.len() > 0 ==> joined(a + b, sep) == joined(a, sep) + sep + joined(b, sep),
    decreases b.len(),
{
    if a.len() > 0 && b.len() > 0 {
        let all = a + b;
        assert(all.drop_last() =~= a + b.drop_last());
        assert(all.last() == b.last());
        if b.len() == 1 {
            assert(a + b.drop_last() =~= a);
        } else {
            law_joining(a, b.drop_last(), word, sep);
            assert(joined(all, sep) =~= joined(a, sep) + sep + joined(b, sep));
        }
    }
}

/// Strings are seen one by one, each by its characters.
pub proof fn law_strings_are_seen_by_their_characters(strings: Seq<String>)
    ensures
        views(strings).len() == strings.len(),
        forall|i: int| 0 <= i < strings.len() ==> #[trigger] views(strings)[i] == strings[i]@,
{
}

/// A path that starts with `crate` starts, when it is resolved, with the name of the crate in which
/// each hyphen, and no other character, is an underscore; all that follows stays as it is.
pub proof fn law_crate_stands_for_the_name_of_the_crate(ids: RawIdentifiers, res: Seq<String>)
    requires
        views(res) == ids@.fully_qualified_path(),
        path_segments(ids.import_path@)[0] == "crate"@,
    ensures
        ({
            let segments = path_segments(ids.import_path@);
            let name = ids.created_at.crate_name@;
            &&& res.len() == segments.len()
            &&& res[0]@.len() == name.len()
            &&& forall|i: int|
                0 <= i < name.len() ==> #[trigger] res[0]@[i] == if name[i] == '-' {
                    '_'
                } else {
                    name[i]
                }
            &&& forall|i: int| 1 <= i < segments.len() ==> (#[trigger] res[i])@ == segments[i]
            &&& climbs(segments) == 0
        }),
{
    lemma_keywords_differ();
    let segments = path_segments(ids.import_path@);
    law_segments_lie_between_separators(ids.import_path@);
    assert(views(res).len() == res.len());
    assert(views(res)[0] == res[0]@);
    assert forall|i: int| 1 <= i < segments.len() implies (#[trigger] res[i])@ == segments[i] by {
        assert(views(res)[i] == segments.skip(1)[i - 1]);
    }
}

/// A path that starts with `self`, with `super`s or with both is resolved, however many `super`s
/// there are, from the module that lies as many modules up: its segments come first, and what
/// follows the `self` and the `super`s stays as it is. As many modules have to be there, and no
/// more.
#[verifier::rlimit(40)]
pub proof fn law_self_and_super_stand_for_modules(
    ids: RawIdentifiers,
    res: Seq<String>,
    n_self: int,
    n_super: int,
)
    requires
        ({
            let segments = path_segments(ids.import_path@);
            &&& n_self == 0 || n_self == 1
            &&& 0 <= n_super
            &&& 0 < n_self + n_super <= segments.len()
            &&& n_self == 1 ==> segments[0] == "self"@
            &&& forall|i: int| n_self <= i < n_self + n_super ==> #[trigger] segments[i] == "super"@
            &&& n_self + n_super < segments.len() ==> segments[n_self + n_super] != "super"@
        }),
    ensures
        climbs(path_segments(ids.import_path@)) == n_super,
        views(res) == ids@.fully_qualified_path() && n_super <= path_segments(
            ids.created_at.module@,
        ).len() ==> {
            let segments = path_segments(ids.import_path@);
            let module = path_segments(ids.created_at.module@);
            let n = module.len() - n_super;
            &&& res.len() == n + segments.len() - n_self - n_super
            &&& forall|i: int| 0 <= i < n ==> (#[trigger] res[i])@ == module[i]
            &&& forall|i: int|
                n <= i < res.len() ==> (#[trigger] res[i])@ == segments[i - n + n_self + n_super]
        },
{
    lemma_keywords_differ();
    let segments = path_segments(ids.import_path@);
    let module = path_segments(ids.created_at.module@);
    let n = module.len() - n_super;
    let relative = segments.skip(n_self);
    assert(segments.skip(0) =~= segments);
    assert forall|i: int| 0 <= i < n_super implies #[trigger] relative[i] == "super"@ by {
        assert(relative[i] == segments[n_self + i]);
    }
    law_leading_words_are_counted(relative, "super"@, n_super);
    if n_self == 0 {
        assert(segments[0] == "super"@);
    }
    if views(res) == ids@.fully_qualified_path() && n_super <= module.len() {
        let rest = segments.skip(n_self + n_super);
        assert(views(res) == module.take(n) + rest);
        assert(views(res).len() == res.len());
        assert forall|i: int| 0 <= i < n implies (#[trigger] res[i])@ == module[i] by {
            assert(views(res)[i] == module.take(n)[i]);
        }
        assert forall|i: int| n <= i < res.len() implies (#[trigger] res[i])@ == segments[i - n
            + n_self + n_super] by {
            assert(views(res)[i] == rest[i - n]);
        }
    }
}

/// As many words are counted at the start as stand there before another word comes.
pub proof fn law_leading_words_are_counted(words: Seq<Seq<char>>, word: Seq<char>, n: int)
    requires
        0 <= n <= words.len(),
        forall|i: int| 0 <= i < n ==> #[trigger] words[i] == word,
        n < words.len() ==> words[n] != word,
    ensures
        leading(words, word) == n,
    decreases n,
{
    if n > 0 {
        let rest = words.drop_first();
        assert(words[0] == word);
        assert forall|i: int| 0 <= i < n - 1 implies #[trigger] rest[i] == word by {
            assert(rest[i] == words[i + 1]);
        }
        law_leading_words_are_counted(rest, word, n - 1);
    }
}

/// A path that starts with none of `crate`, `self` and `super` is kept, segment by segment, and
/// asks nothing of its module.
pub proof fn law_other_paths_are_kept(ids: RawIdentifiers, res: Seq<String>)
    requires
        path_segments(ids.import_path@)[0] != "crate"@,
        path_segments(ids.import_path@)[0] != "self"@,
        path_segments(ids.import_path@)[0] != "super"@,
    ensures
        climbs(path_segments(ids.import_path@)) == 0,
        views(res) == ids@.fully_qualified_path() ==> {
            let segments = path_segments(ids.import_path@);
            &&& res.len() == segments.len()
            &&& forall|i: int| 0 <= i < res.len() ==> (#[trigger] res[i])@ == segments[i]
        },
{
    if views(res) == ids@.fully_qualified_path() {
        assert(views(res).len() == res.len());
        assert forall|i: int| 0 <= i < res.len() implies (#[trigger] res[i])@ == path_segments(
            ids.import_path@,
        )[i] by {
            assert(views(res)[i] == res[i]@);
        }
    }
}

/// In a name whose hyphens are replaced, each hyphen, and no other character, is an underscore.
pub proof fn law_hyphens_become_underscores(name: Seq<char>)
    ensures
        underscored(name).len() == name.len(),
        forall|i: int|
            0 <= i < name.len() ==> #[trigger] underscored(name)[i] == if name[i] == '-' {
                '_'
            } else {
                name[i]
            },
{
}

} // verus!

//! The search itself: which lines of a text match a pattern.

use vstd::prelude::*;
use crate::conf::{Conf, ConfView};
use crate::text::{
    has_substring, lines_of, lowercase, occurs_at, occurs_in, split_lines, to_lower,
};

verus! {

/// The line that is printed before the matches of each source.
pub const SEPARATOR: &'static str = "================================";

/// Whether a line matches a pattern: the pattern occurs in the line, or, when
/// case is ignored, the lowercase form of the pattern occurs in the lowercase
/// form of the line.
pub open spec fn line_matches(pattern: Seq<char>, line: Seq<char>, ignore_case: bool) -> bool {
    if ignore_case {
        occurs_in(lowercase(pattern), lowercase(line))
    } else {
        occurs_in(pattern, line)
    }
}

/// [`line_matches`] for a fixed pattern and mode, as a predicate on lines.
pub open spec fn matcher(pattern: Seq<char>, ignore_case: bool) -> spec_fn(Seq<char>) -> bool {
    |line: Seq<char>| line_matches(pattern, line, ignore_case)
}

/// The lines of `content` that match `pattern`, in their order of appearance,
/// each as often as it appears.
pub open spec fn matching_lines(pattern: Seq<char>, content: Seq<char>, ignore_case: bool) -> Seq<
    Seq<char>,
> {
    split_lines(content).filter(matcher(pattern, ignore_case))
}

/// The members of `lines` whose key contains `needle`, in their order. The
/// key of `lines[i]` is `keys[i]`: the text that stands for the line in the
/// comparison. A line without a key is not kept.
pub open spec fn selected(needle: Seq<char>, lines: Seq<Seq<char>>, keys: Seq<Seq<char>>) -> Seq<
    Seq<char>,
>
    decreases lines.len(),
{
    if lines.len() == 0 {
        lines
    } else {
        let earlier = selected(needle, lines.drop_last(), keys);
        let last = lines.len() - 1;
        if last < keys.len() && occurs_in(needle, keys[last]) {
            earlier.push(lines.last())
        } else {
            earlier
        }
    }
}

/// Selecting by keys is the search: where each line's key is the line itself,
/// or, when case is ignored, its lowercase form, and the needle is the pattern
/// in the same form, the selected lines are the matching lines.
pub proof fn lemma_selected_are_matching(
    pattern: Seq<char>,
    lines: Seq<Seq<char>>,
    keys: Seq<Seq<char>>,
    ignore_case: bool,
)
    requires
        keys.len() == lines.len(),
        forall|i: int|
            0 <= i < lines.len() ==> #[trigger] keys[i] == if ignore_case {
                lowercase(lines[i])
            } else {
                lines[i]
            },
    ensures
        selected(
            if ignore_case {
                lowercase(pattern)
            } else {
                pattern
            },
            lines,
            keys,
        ) == lines.filter(matcher(pattern, ignore_case)),
    decreases lines.len(),
{
    reveal(Seq::filter);
    if lines.len() > 0 {
        let last = lines.len() - 1;
        let needle = if ignore_case {
            lowercase(pattern)
        } else {
            pattern
        };
        lemma_selected_ignores_later_keys(needle, lines.drop_last(), keys);
        assert forall|i: int| 0 <= i < last implies #[trigger] keys.drop_last()[i]
            == if ignore_case {
            lowercase(lines.drop_last()[i])
        } else {
            lines.drop_last()[i]
        } by {
        }
        lemma_selected_are_matching(pattern, lines.drop_last(), keys.drop_last(), ignore_case);
        assert(keys[last] == if ignore_case {
            lowercase(lines[last])
        } else {
            lines[last]
        });
    }
}

/// Keys beyond the last line play no part.
proof fn lemma_selected_ignores_later_keys(
    needle: Seq<char>,
    lines: Seq<Seq<char>>,
    keys: Seq<Seq<char>>,
)
    requires
        lines.len() < keys.len(),
    ensures
        selected(needle, lines, keys) == selected(needle, lines, keys.drop_last()),
    decreases lines.len(),
{
    if lines.len() > 0 {
        lemma_selected_ignores_later_keys(needle, lines.drop_last(), keys);
        lemma_selected_ignores_later_keys(needle, lines.drop_last(), keys.drop_last());
    }
}

/// The lines among `lines` whose key contains `needle`, in their order. The
/// key of `lines[i]` is `keys[i]`; a line without a key is not kept.
pub fn select_lines<'a>(needle: &str, lines: &Vec<&'a str>, keys: &Vec<&str>) -> (kept: Vec<
    &'a str,
>)
    ensures
        kept.deep_view() == selected(needle@, lines.deep_view(), keys.deep_view()),
{
    let ghost all = lines.deep_view();
    let mut kept: Vec<&'a str> = Vec::new();
    let mut i: usize = 0;
    while i < lines.len()
        invariant
            i <= lines.len(),
            all == lines.deep_view(),
            kept.deep_view() == selected(needle@, all.take(i as int), keys.deep_view()),
        decreases lines.len() - i,
    {
        assert(all.take(i + 1).drop_last() =~= all.take(i as int));
        if i < keys.len() && has_substring(keys[i], needle) {
            kept.push(lines[i]);
        }
        i += 1;
    }
    assert(all.take(i as int) =~= all);
    kept
}

/// The lines of `content` that contain `query`, compared character by
/// character.
pub fn search<'a>(query: &str, content: &'a str) -> (res: Vec<&'a str>)
    ensures
        res.deep_view() == matching_lines(query@, content@, false),
        query@.len() == 0 ==> res.deep_view() == split_lines(content@),
{
    let lines = lines_of(content);
    proof {
        lemma_selected_are_matching(query@, lines.deep_view(), lines.deep_view(), false);
        if query@.len() == 0 {
            assert(query@ =~= Seq::<char>::empty());
            lemma_empty_pattern_matches_every_line(content@, false);
        }
    }
    select_lines(query, &lines, &lines)
}

/// The lines of `content` whose lowercase form contains the lowercase form of
/// `query`. The query is lowered once, each line once.
///
/// Where [`lowering_keeps_matches`], the lines that [`search`] finds are
/// among them: they are those of the result that contain `query` as it is.
pub fn search_ignore_case<'a>(query: &str, content: &'a str) -> (res: Vec<&'a str>)
    ensures
        res.deep_view() == matching_lines(query@, content@, true),
        query@.len() == 0 ==> res.deep_view() == split_lines(content@),
        lowering_keeps_matches(query@, content@) ==> matching_lines(query@, content@, false)
            == res.deep_view().filter(matcher(query@, false)),
{
    let lines = lines_of(content);
    let query_lower = to_lower(query);
    let mut lowered: Vec<String> = Vec::new();
    let mut i: usize = 0;
    while i < lines.len()
        invariant
            i <= lines.len(),
            lowered.len() == i,
            forall|j: int| 0 <= j < i ==> (#[trigger] lowered[j])@ == lowercase(lines[j]@),
        decreases lines.len() - i,
    {
        lowered.push(to_lower(lines[i]));
        i += 1;
    }
    let mut keys: Vec<&str> = Vec::new();
    let mut k: usize = 0;
    while k < lowered.len()
        invariant
            k <= lowered.len(),
            keys.len() == k,
            forall|j: int| 0 <= j < k ==> (#[trigger] keys[j])@ == lowered[j]@,
        decreases lowered.len() - k,
    {
        keys.push(lowered[k].as_str());
        k += 1;
    }
    proof {
        assert forall|j: int| 0 <= j < lines.len() implies #[trigger] keys.deep_view()[j]
            == lowercase(lines.deep_view()[j]) by {
        }
        lemma_selected_are_matching(query@, lines.deep_view(), keys.deep_view(), true);
        if lowering_keeps_matches(query@, content@) {
            lemma_ignoring_case_finds_no_less(query@, content@);
        }
        if query@.len() == 0 {
            assert(query@ =~= Seq::<char>::empty());
            lemma_empty_pattern_matches_every_line(content@, true);
        }
    }
    select_lines(query_lower.as_str(), &lines, &keys)
}

/// `picks` tells where in `lines` the members of `kept` stand: `kept[k]` is
/// the line at position `picks[k]`, and the positions ascend.
pub open spec fn picks_in_order<A>(lines: Seq<A>, picks: Seq<int>, kept: Seq<A>) -> bool {
    &&& picks.len() == kept.len()
    &&& forall|k: int|
        0 <= k < picks.len() ==> 0 <= #[trigger] picks[k] < lines.len() && kept[k] == lines[picks[k]]
    &&& forall|j: int, k: int| 0 <= j < k < picks.len() ==> picks[j] < picks[k]
}

/// What a filter keeps stands in the order of the sequence, and it keeps the
/// members that meet the predicate, each position once.
proof fn lemma_filter_picks<A>(lines: Seq<A>, pred: spec_fn(A) -> bool) -> (picks: Seq<int>)
    ensures
        picks_in_order(lines, picks, lines.filter(pred)),
        forall|i: int| 0 <= i < lines.len() ==> (picks.contains(i) <==> pred(lines[i])),
    decreases lines.len(),
{
    reveal(Seq::filter);
    if lines.len() == 0 {
        Seq::empty()
    } else {
        let earlier = lines.drop_last();
        let last = lines.len() - 1;
        let before = lemma_filter_picks(earlier, pred);
        if pred(lines.last()) {
            let picks = before.push(last);
            assert forall|i: int| 0 <= i < lines.len() implies (picks.contains(i) <==> pred(
                lines[i],
            )) by {
                if i == last {
                    assert(picks[before.len() as int] == i);
                } else if before.contains(i) {
                    let k = choose|k: int| 0 <= k < before.len() && before[k] == i;
                    assert(picks[k] == i);
                }
            }
            picks
        } else {
            before
        }
    }
}

/// Filtering by `narrow` gives what filtering by `wide` and then by `narrow`
/// gives, where every member that meets `narrow` meets `wide`.
proof fn lemma_filter_refines<A>(lines: Seq<A>, narrow: spec_fn(A) -> bool, wide: spec_fn(A) -> bool)
    requires
        forall|i: int| 0 <= i < lines.len() && narrow(lines[i]) ==> wide(lines[i]),
    ensures
        lines.filter(narrow) == lines.filter(wide).filter(narrow),
    decreases lines.len(),
{
    reveal(Seq::filter);
    if lines.len() > 0 {
        let earlier = lines.drop_last();
        assert forall|i: int| 0 <= i < earlier.len() && narrow(earlier[i]) implies wide(
            earlier[i],
        ) by {
        }
        lemma_filter_refines(earlier, narrow, wide);
        if wide(lines.last()) {
            earlier.filter(wide).lemma_filter_push(lines.last(), narrow);
        }
    }
}

/// A search is repeatable and keeps the order of the text.
///
/// The matches depend on pattern, content and mode alone, so equal inputs give
/// equal matches. They are lines of the content at ascending positions,
/// `picks`, and a position is picked exactly when its line matches: no line is
/// dropped, added, repeated or moved.
pub proof fn lemma_search_is_repeatable_and_ordered(
    pattern: Seq<char>,
    content: Seq<char>,
    ignore_case: bool,
    pattern_again: Seq<char>,
    content_again: Seq<char>,
    ignore_case_again: bool,
) -> (picks: Seq<int>)
    requires
        pattern == pattern_again,
        content == content_again,
        ignore_case == ignore_case_again,
    ensures
        matching_lines(pattern, content, ignore_case) == matching_lines(
            pattern_again,
            content_again,
            ignore_case_again,
        ),
        picks_in_order(
            split_lines(content),
            picks,
            matching_lines(pattern, content, ignore_case),
        ),
        forall|i: int|
            0 <= i < split_lines(content).len() ==> (picks.contains(i) <==> line_matches(
                pattern,
                split_lines(content)[i],
                ignore_case,
            )),
{
    lemma_filter_picks(split_lines(content), matcher(pattern, ignore_case))
}

/// Whether lowering keeps the pattern's place in every line of `content` that
/// contains it: such a line, lowered, contains the lowered pattern.
///
/// Lowering a text is not lowering its characters one by one: a capital sigma
/// becomes a final sigma at the end of a word and a plain one elsewhere, so a
/// pattern that ends in one may be lowered otherwise than the same letters
/// inside a line.
pub open spec fn lowering_keeps_matches(pattern: Seq<char>, content: Seq<char>) -> bool {
    forall|i: int|
        0 <= i < split_lines(content).len() && occurs_in(pattern, #[trigger] split_lines(content)[i])
            ==> occurs_in(lowercase(pattern), lowercase(split_lines(content)[i]))
}

/// Ignoring case finds every line that the exact search finds, on inputs where
/// [`lowering_keeps_matches`]: each exact match is among the matches that
/// ignore case, and the exact matches are those of them that contain the
/// pattern as it is, in the same order.
pub proof fn lemma_ignoring_case_finds_no_less(pattern: Seq<char>, content: Seq<char>)
    requires
        lowering_keeps_matches(pattern, content),
    ensures
        forall|line: Seq<char>|
            matching_lines(pattern, content, false).contains(line) ==> matching_lines(
                pattern,
                content,
                true,
            ).contains(line),
        matching_lines(pattern, content, false) == matching_lines(pattern, content, true).filter(
            matcher(pattern, false),
        ),
        matching_lines(pattern, content, false).len() <= matching_lines(pattern, content, true).len(),
{
    let lines = split_lines(content);
    let exact = matcher(pattern, false);
    let folded = matcher(pattern, true);
    assert forall|i: int| 0 <= i < lines.len() && exact(lines[i]) implies folded(lines[i]) by {
    }
    lemma_filter_refines(lines, exact, folded);
    lines.filter(folded).lemma_filter_len(exact);
    assert forall|line: Seq<char>| lines.filter(exact).contains(line) implies lines.filter(
        folded,
    ).contains(line) by {
        let k = choose|k: int| 0 <= k < lines.filter(exact).len() && lines.filter(exact)[k] == line;
        let picks = lemma_filter_picks(lines.filter(folded), exact);
        assert(lines.filter(folded)[picks[k]] == line);
    }
}

/// The empty text has no lines, so nothing matches in it, whatever the
/// pattern.
pub proof fn lemma_empty_content_has_no_matches(pattern: Seq<char>, ignore_case: bool)
    ensures
        matching_lines(pattern, Seq::empty(), ignore_case) == Seq::<Seq<char>>::empty(),
{
    reveal(Seq::filter);
}

/// The empty pattern matches every line: the matches are the lines of the
/// content. When case is ignored this rests on the lowercase form of the empty
/// text being empty.
pub proof fn lemma_empty_pattern_matches_every_line(content: Seq<char>, ignore_case: bool)
    requires
        ignore_case ==> lowercase(Seq::empty()).len() == 0,
    ensures
        matching_lines(Seq::empty(), content, ignore_case) == split_lines(content),
{
    let lines = split_lines(content);
    let pred = matcher(Seq::empty(), ignore_case);
    assert forall|i: int| 0 <= i < lines.len() implies pred(#[trigger] lines[i]) by {
        let line = if ignore_case {
            lowercase(lines[i])
        } else {
            lines[i]
        };
        let needle = if ignore_case {
            lowercase(Seq::empty())
        } else {
            Seq::<char>::empty()
        };
        assert(line.subrange(0, 0) =~= needle);
        assert(occurs_at(needle, line, 0));
    }
    lemma_filter_keeps_all(lines, pred);
}

/// A filter keeps a sequence as it is where every member meets the predicate.
proof fn lemma_filter_keeps_all<A>(lines: Seq<A>, pred: spec_fn(A) -> bool)
    requires
        forall|i: int| 0 <= i < lines.len() ==> pred(#[trigger] lines[i]),
    ensures
        lines.filter(pred) == lines,
    decreases lines.len(),
{
    reveal(Seq::filter);
    if lines.len() > 0 {
        let earlier = lines.drop_last();
        assert forall|i: int| 0 <= i < earlier.len() implies pred(#[trigger] earlier[i]) by {
        }
        lemma_filter_keeps_all(earlier, pred);
    }
}

/// What is printed for one source with the contents `contents`: the
/// separator, then each matching line.
pub open spec fn report(conf: ConfView, contents: Seq<char>) -> Seq<Seq<char>> {
    seq![SEPARATOR@] + matching_lines(conf.pattern, contents, conf.ignore_case)
}

/// Searches the contents of one source as `conf` asks and returns the lines
/// to print for it, in order.
pub fn search_hub<'a>(conf: &Conf, contents: &'a str) -> (lines: Vec<&'a str>)
    ensures
        lines.deep_view() == report(conf@, contents@),
{
    let mut results = if !conf.ignore_case {
        search(conf.pattern.as_str(), contents)
    } else {
        search_ignore_case(conf.pattern.as_str(), contents)
    };
    let mut lines: Vec<&'a str> = Vec::new();
    lines.push(SEPARATOR);
    lines.append(&mut results);
    lines
}

} // verus!

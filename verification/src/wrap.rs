//! Wrapping a styled line into rows of a fixed width.
//!
//! The plain text of the line is wrapped word by word; the lengths of the
//! wrapped lines, counted in grapheme clusters, then cut the styled clusters
//! into rows. The space at which a line was broken is not part of either
//! line, so it is cut out as a chunk of its own and dropped.

use vstd::prelude::*;
use vstd::string::*;
use arbitrary_chunks::ArbitraryChunks;
use crate::grapheme::{count_graphemes, grapheme_clusters, graphemes_of, styled_graphemes};
use crate::style::{joined_text, StyledGrapheme, StyledSegment, StyledText};

verus! {

/// The lines that `textwrap::wrap` makes of a text at a width, with the
/// options that `wrap_lines` sets.
pub uninterp spec fn wrapped_lines(text: Seq<char>, width: nat) -> Seq<Seq<char>>;

/// Calls `textwrap::wrap` on `text` with the options of
/// `textwrap::Options::new(width)`, changed to fill each line greedily
/// (`WrapAlgorithm::FirstFit`), to break at spaces only
/// (`WordSeparator::AsciiSpace`) and to leave hyphens alone
/// (`WordSplitter::NoHyphenation`), and copies each line into a string of its
/// own.
///
/// The lines depend on the text and the width alone; the contract gives them
/// their name and states nothing else of them.
#[verifier::external_body]
pub(crate) fn wrap_lines(text: &str, width: usize) -> (lines: Vec<String>)
    ensures
        lines.deep_view() == wrapped_lines(text@, width as nat),
{
    let options = textwrap::Options::new(width)
        .wrap_algorithm(textwrap::WrapAlgorithm::FirstFit)
        .word_separator(textwrap::WordSeparator::AsciiSpace)
        .word_splitter(textwrap::WordSplitter::NoHyphenation);
    textwrap::wrap(text, options).into_iter().map(|line| line.into_owned()).collect()
}

/// The sum of the lengths.
pub open spec fn total(lengths: Seq<nat>) -> nat
    decreases lengths.len(),
{
    if lengths.len() == 0 {
        0
    } else {
        total(lengths.drop_last()) + lengths.last()
    }
}

/// The `n`-th of the chunks that follow one another from `base` on with the
/// lengths of `plan`.
pub open spec fn piece(graphemes: Seq<StyledText>, base: int, plan: Seq<nat>, n: int) -> Seq<
    StyledText,
> {
    graphemes.subrange(base + total(plan.take(n)), base + total(plan.take(n + 1)))
}

/// The chunks that follow one another from the start with the lengths of
/// `plan`.
pub open spec fn chunks(graphemes: Seq<StyledText>, plan: Seq<nat>) -> Seq<Seq<StyledText>> {
    Seq::new(plan.len(), |n: int| piece(graphemes, 0, plan, n))
}

/// The lengths as natural numbers.
pub open spec fn as_nats(lengths: Seq<usize>) -> Seq<nat> {
    lengths.map_values(|length: usize| length as nat)
}

/// Calls `arbitrary_chunks::ArbitraryChunks::arbitrary_chunks` on the
/// clusters with the lengths of `plan`, and copies each chunk into a vector of
/// its own.
///
/// The iterator hands out, for each length in turn, that many of the items
/// that follow those it has handed out. It would hand out fewer where the
/// items run out, and it fails on an empty list of lengths: `requires` leaves
/// both out.
#[verifier::external_body]
pub(crate) fn split_chunks(graphemes: &Vec<StyledGrapheme>, plan: &Vec<usize>) -> (parts: Vec<
    Vec<StyledGrapheme>,
>)
    requires
        plan@.len() > 0,
        total(as_nats(plan@)) <= graphemes@.len(),
    ensures
        parts.deep_view() == chunks(graphemes.deep_view(), as_nats(plan@)),
{
    graphemes.arbitrary_chunks(plan).map(|chunk| chunk.to_vec()).collect()
}

/// How many columns a requested width stands for: a width of zero is taken
/// as one column.
pub open spec fn columns(width: nat) -> nat {
    if width == 0 {
        1
    } else {
        width
    }
}

/// The number of clusters in each line.
pub open spec fn line_lengths(lines: Seq<Seq<char>>) -> Seq<nat> {
    lines.map_values(|line: Seq<char>| grapheme_clusters(line).len())
}

/// A row that is nothing but the space at which a line was broken.
pub open spec fn is_separator(row: Seq<StyledText>) -> bool {
    row.len() == 1 && row[0].is_space()
}

/// The row is kept.
pub open spec fn is_row(row: Seq<StyledText>) -> bool {
    !is_separator(row)
}

/// The lengths of the chunks into which the clusters from `cursor` on are
/// cut: for each wrapped line as many clusters as the line has, or as are
/// left; and behind a chunk a chunk of one cluster, where that cluster is a
/// space. A line that finds no cluster left ends the plan.
pub open spec fn chunk_plan(graphemes: Seq<StyledText>, lengths: Seq<nat>, cursor: int) -> Seq<nat>
    decreases lengths.len(),
{
    if lengths.len() == 0 {
        Seq::empty()
    } else if lengths.first() > 0 && cursor >= graphemes.len() {
        Seq::empty()
    } else {
        let left = (graphemes.len() - cursor) as nat;
        let taken = if lengths.first() <= left {
            lengths.first()
        } else {
            left
        };
        let stop = cursor + taken;
        if stop < graphemes.len() && graphemes[stop].is_space() {
            seq![taken, 1nat] + chunk_plan(graphemes, lengths.drop_first(), stop + 1)
        } else {
            seq![taken] + chunk_plan(graphemes, lengths.drop_first(), stop)
        }
    }
}

/// The rows into which lines of the given lengths cut the clusters: the
/// chunks of the plan, without those that are a lone space. No clusters, no
/// rows.
pub open spec fn rows_of(graphemes: Seq<StyledText>, lengths: Seq<nat>) -> Seq<Seq<StyledText>> {
    if graphemes.len() == 0 {
        Seq::empty()
    } else {
        chunks(graphemes, chunk_plan(graphemes, lengths, 0)).filter(
            |row: Seq<StyledText>| is_row(row),
        )
    }
}

/// The rows of a styled line wrapped at a width.
pub open spec fn wrapped_rows(segments: Seq<StyledText>, width: nat) -> Seq<Seq<StyledText>> {
    rows_of(
        styled_graphemes(segments),
        line_lengths(wrapped_lines(joined_text(segments), columns(width))),
    )
}

/// The sum of lengths that follow one another is the sum of the sums.
pub proof fn lemma_total_add(front: Seq<nat>, back: Seq<nat>)
    ensures
        total(front + back) == total(front) + total(back),
    decreases back.len(),
{
    if back.len() == 0 {
        assert(front + back =~= front);
    } else {
        lemma_total_add(front, back.drop_last());
        assert((front + back).drop_last() =~= front + back.drop_last());
    }
}

/// The sum of the first lengths does not exceed the sum of all.
pub proof fn lemma_total_take(lengths: Seq<nat>, n: int)
    requires
        0 <= n <= lengths.len(),
    ensures
        total(lengths.take(n)) <= total(lengths),
{
    lemma_total_add(lengths.take(n), lengths.skip(n));
    assert(lengths.take(n) + lengths.skip(n) =~= lengths);
}

/// The number of clusters in each of the lines.
pub fn lengths_of(lines: &Vec<String>) -> (lengths: Vec<usize>)
    ensures
        as_nats(lengths@) == line_lengths(lines.deep_view()),
{
    let mut lengths: Vec<usize> = Vec::new();
    let mut next: usize = 0;
    proof {
        assert(as_nats(lengths@) =~= line_lengths(lines.deep_view().take(0)));
    }
    while next < lines.len()
        invariant
            next <= lines@.len(),
            as_nats(lengths@) == line_lengths(lines.deep_view().take(next as int)),
        decreases lines.len() - next,
    {
        let count = count_graphemes(lines[next].as_str());
        let ghost before = as_nats(lengths@);
        lengths.push(count);
        proof {
            assert(lines.deep_view()[next as int] == lines@[next as int]@);
            assert(as_nats(lengths@) =~= before.push(count as nat));
            assert(line_lengths(lines.deep_view().take(next + 1)) =~= line_lengths(
                lines.deep_view().take(next as int),
            ).push(count as nat));
        }
        next += 1;
    }
    proof {
        assert(lines.deep_view().take(next as int) =~= lines.deep_view());
    }
    lengths
}

/// The text of the segments, one after the other.
pub fn plain_text(segments: &Vec<StyledSegment>) -> (text: String)
    ensures
        text@ == joined_text(segments.deep_view()),
{
    let ghost pick = |piece: StyledText| piece.text;
    let mut text = String::new();
    let mut next: usize = 0;
    proof {
        assert(segments.deep_view().take(0).map_values(pick) =~= Seq::<Seq<char>>::empty());
    }
    while next < segments.len()
        invariant
            next <= segments@.len(),
            pick == |piece: StyledText| piece.text,
            text@ == segments.deep_view().take(next as int).map_values(pick).flatten(),
        decreases segments.len() - next,
    {
        text.append(segments[next].text.as_str());
        proof {
            let done = segments.deep_view().take(next as int).map_values(pick);
            let added = segments@[next as int].text@;
            assert(segments.deep_view().take(next + 1).map_values(pick) =~= done.push(added));
            done.lemma_flatten_push(added);
        }
        next += 1;
    }
    proof {
        assert(segments.deep_view().take(next as int) =~= segments.deep_view());
    }
    text
}

/// Lays the lengths of the wrapped lines over the clusters: the lengths of
/// the chunks to cut, the swallowed spaces among them.
pub fn plan_chunks(graphemes: &Vec<StyledGrapheme>, lengths: &Vec<usize>) -> (plan: Vec<usize>)
    ensures
        as_nats(plan@) == chunk_plan(graphemes.deep_view(), as_nats(lengths@), 0),
        total(as_nats(plan@)) <= graphemes@.len(),
{
    let ghost clusters = graphemes.deep_view();
    let ghost wanted = as_nats(lengths@);
    let mut plan: Vec<usize> = Vec::new();
    let mut cursor: usize = 0;
    let mut next: usize = 0;
    proof {
        assert(wanted.skip(0) =~= wanted);
        assert(as_nats(plan@) =~= Seq::<nat>::empty());
        assert(as_nats(plan@) + chunk_plan(clusters, wanted, 0) =~= chunk_plan(clusters, wanted, 0));
    }
    while next < lengths.len()
        invariant
            clusters == graphemes.deep_view(),
            wanted == as_nats(lengths@),
            cursor <= graphemes@.len(),
            next <= lengths@.len(),
            total(as_nats(plan@)) == cursor,
            as_nats(plan@) + chunk_plan(clusters, wanted.skip(next as int), cursor as int)
                == chunk_plan(clusters, wanted, 0),
        decreases lengths.len() - next,
    {
        let length = lengths[next];
        let left = graphemes.len() - cursor;
        proof {
            assert(wanted.skip(next as int).first() == length as nat);
            assert(wanted.skip(next as int).drop_first() =~= wanted.skip(next + 1));
        }
        if length > 0 && left == 0 {
            proof {
                assert(as_nats(plan@) + Seq::<nat>::empty() =~= as_nats(plan@));
            }
            return plan;
        }
        let taken = if length <= left {
            length
        } else {
            left
        };
        let stop = cursor + taken;
        let ghost before = as_nats(plan@);
        plan.push(taken);
        proof {
            assert(as_nats(plan@) =~= before.push(taken as nat));
            assert(as_nats(plan@).drop_last() =~= before);
            assert(total(as_nats(plan@)) == cursor + taken);
        }
        if stop < graphemes.len() && graphemes[stop].is_space() {
            let ghost middle = as_nats(plan@);
            plan.push(1);
            proof {
                assert(clusters[stop as int] == graphemes@[stop as int]@);
                assert(as_nats(plan@) =~= middle.push(1nat));
                assert(as_nats(plan@).drop_last() =~= middle);
                assert(total(as_nats(plan@)) == stop + 1);
                let rest = chunk_plan(clusters, wanted.skip(next + 1), stop + 1);
                assert(as_nats(plan@) + rest =~= before + (seq![taken as nat, 1nat] + rest));
            }
            cursor = stop + 1;
        } else {
            proof {
                if stop < graphemes.len() {
                    assert(clusters[stop as int] == graphemes@[stop as int]@);
                }
                let rest = chunk_plan(clusters, wanted.skip(next + 1), stop as int);
                assert(as_nats(plan@) + rest =~= before + (seq![taken as nat] + rest));
            }
            cursor = stop;
        }
        next += 1;
    }
    proof {
        assert(wanted.skip(next as int) =~= Seq::<nat>::empty());
        assert(as_nats(plan@) + Seq::<nat>::empty() =~= as_nats(plan@));
    }
    plan
}

/// A copy of a row.
pub fn duplicate_row(row: &Vec<StyledGrapheme>) -> (copy: Vec<StyledGrapheme>)
    ensures
        copy.deep_view() == row.deep_view(),
{
    let mut copy: Vec<StyledGrapheme> = Vec::new();
    let mut next: usize = 0;
    while next < row.len()
        invariant
            next <= row@.len(),
            copy.deep_view() == row.deep_view().take(next as int),
        decreases row.len() - next,
    {
        let ghost before = copy.deep_view();
        copy.push(row[next].duplicate());
        proof {
            assert(copy.deep_view() =~= before.push(row@[next as int]@));
            assert(row.deep_view().take(next + 1) =~= before.push(row@[next as int]@));
        }
        next += 1;
    }
    proof {
        assert(row.deep_view().take(next as int) =~= row.deep_view());
    }
    copy
}

/// Cuts the clusters of a styled line into rows, given the number of
/// clusters in each line of its wrapped text.
///
/// A length that asks for more clusters than are left gets those that are
/// left, and a line that finds none left ends the rows.
pub fn rows_from_chunks(graphemes: &Vec<StyledGrapheme>, lengths: &Vec<usize>) -> (rows: Vec<
    Vec<StyledGrapheme>,
>)
    ensures
        rows.deep_view() == rows_of(graphemes.deep_view(), as_nats(lengths@)),
        forall|r: int| 0 <= r < rows.deep_view().len() ==> is_row(#[trigger] rows.deep_view()[r]),
{
    let ghost keep = |row: Seq<StyledText>| is_row(row);
    let mut rows: Vec<Vec<StyledGrapheme>> = Vec::new();
    if graphemes.len() == 0 {
        proof {
            assert(rows.deep_view() =~= Seq::<Seq<StyledText>>::empty());
        }
        return rows;
    }
    let plan = plan_chunks(graphemes, lengths);
    if plan.len() == 0 {
        proof {
            reveal(Seq::filter);
            assert(chunks(graphemes.deep_view(), as_nats(plan@)) =~= Seq::<
                Seq<StyledText>,
            >::empty());
            assert(rows.deep_view() =~= Seq::<Seq<StyledText>>::empty());
        }
        return rows;
    }
    let parts = split_chunks(graphemes, &plan);
    let ghost cut = parts.deep_view();
    let mut next: usize = 0;
    proof {
        reveal(Seq::filter);
        assert(rows.deep_view() =~= cut.take(0).filter(keep));
    }
    while next < parts.len()
        invariant
            next <= parts@.len(),
            cut == parts.deep_view(),
            keep == |row: Seq<StyledText>| is_row(row),
            rows.deep_view() == cut.take(next as int).filter(keep),
            forall|r: int|
                0 <= r < rows.deep_view().len() ==> is_row(#[trigger] rows.deep_view()[r]),
        decreases parts.len() - next,
    {
        let part = &parts[next];
        let separator = part.len() == 1 && part[0].is_space();
        proof {
            assert(cut[next as int] == part.deep_view());
            if part.len() == 1 {
                assert(part.deep_view()[0] == part@[0]@);
            }
            assert(separator == is_separator(cut[next as int]));
            assert(cut.take(next + 1) =~= cut.take(next as int).push(cut[next as int]));
            cut.take(next as int).lemma_filter_push(cut[next as int], keep);
        }
        if !separator {
            let ghost before = rows.deep_view();
            rows.push(duplicate_row(part));
            proof {
                assert(rows.deep_view() =~= before.push(cut[next as int]));
            }
        }
        next += 1;
    }
    proof {
        assert(cut.take(next as int) =~= cut);
    }
    rows
}

/// Wraps a styled line at `width` columns into rows, each cluster keeping its
/// style. A width of zero is taken as one column.
pub fn wrap(segments: &Vec<StyledSegment>, width: usize) -> (rows: Vec<Vec<StyledGrapheme>>)
    ensures
        rows.deep_view() == wrapped_rows(segments.deep_view(), width as nat),
        forall|r: int| 0 <= r < rows.deep_view().len() ==> is_row(#[trigger] rows.deep_view()[r]),
{
    let graphemes = graphemes_of(segments);
    let text = plain_text(segments);
    let columns = if width == 0 {
        1
    } else {
        width
    };
    let lines = wrap_lines(text.as_str(), columns);
    let lengths = lengths_of(&lines);
    rows_from_chunks(&graphemes, &lengths)
}

/// The sum of one length and those behind it.
pub proof fn lemma_total_first(lengths: Seq<nat>)
    requires
        lengths.len() > 0,
    ensures
        total(lengths) == lengths.first() + total(lengths.drop_first()),
{
    let head = seq![lengths.first()];
    lemma_total_add(head, lengths.drop_first());
    assert(head + lengths.drop_first() =~= lengths);
    assert(head.drop_last() =~= Seq::<nat>::empty());
    assert(total(head) == lengths.first()) by {
        reveal_with_fuel(total, 2);
    }
}

/// Chunks that follow one another, joined, are the clusters they were cut
/// from, as far as the plan goes.
pub proof fn lemma_chunks_join(graphemes: Seq<StyledText>, plan: Seq<nat>)
    requires
        total(plan) <= graphemes.len(),
    ensures
        chunks(graphemes, plan).flatten() == graphemes.take(total(plan) as int),
    decreases plan.len(),
{
    if plan.len() == 0 {
        assert(chunks(graphemes, plan) =~= Seq::<Seq<StyledText>>::empty());
        assert(graphemes.take(0) =~= Seq::<StyledText>::empty());
    } else {
        let front = plan.drop_last();
        let last = piece(graphemes, 0, plan, plan.len() - 1);
        lemma_chunks_join(graphemes, front);
        assert forall|n: int| 0 <= n < front.len() implies piece(graphemes, 0, plan, n) == piece(
            graphemes,
            0,
            front,
            n,
        ) by {
            assert(plan.take(n) =~= front.take(n));
            assert(plan.take(n + 1) =~= front.take(n + 1));
        }
        assert(chunks(graphemes, plan) =~= chunks(graphemes, front).push(last));
        chunks(graphemes, front).lemma_flatten_push(last);
        assert(plan.take(plan.len() - 1) =~= front);
        assert(plan.take(plan.len() as int) =~= plan);
        assert(graphemes.take(total(front) as int) + last =~= graphemes.take(total(plan) as int));
    }
}

/// A plan stays within the clusters, and reaches their end where the lengths
/// of the lines ask for as many clusters as are left, or more.
pub proof fn lemma_plan_total(graphemes: Seq<StyledText>, lengths: Seq<nat>, cursor: int)
    requires
        0 <= cursor <= graphemes.len(),
    ensures
        cursor + total(chunk_plan(graphemes, lengths, cursor)) <= graphemes.len(),
        cursor + total(lengths) >= graphemes.len() ==> cursor + total(
            chunk_plan(graphemes, lengths, cursor),
        ) == graphemes.len(),
    decreases lengths.len(),
{
    if lengths.len() == 0 {
    } else if lengths.first() > 0 && cursor >= graphemes.len() {
    } else {
        lemma_total_first(lengths);
        let plan = chunk_plan(graphemes, lengths, cursor);
        let left = (graphemes.len() - cursor) as nat;
        let taken = if lengths.first() <= left {
            lengths.first()
        } else {
            left
        };
        let stop = cursor + taken;
        lemma_total_first(plan);
        if stop < graphemes.len() && graphemes[stop].is_space() {
            let rest = chunk_plan(graphemes, lengths.drop_first(), stop + 1);
            lemma_plan_total(graphemes, lengths.drop_first(), stop + 1);
            assert(plan.drop_first() =~= seq![1nat] + rest);
            lemma_total_first(plan.drop_first());
            assert(plan.drop_first().drop_first() =~= rest);
        } else {
            let rest = chunk_plan(graphemes, lengths.drop_first(), stop);
            lemma_plan_total(graphemes, lengths.drop_first(), stop);
            assert(plan.drop_first() =~= rest);
        }
    }
}

/// Behind the first `head` lengths of a plan, the chunks are those of the
/// rest of the plan, from where the first ones end.
pub proof fn lemma_piece_shift(
    graphemes: Seq<StyledText>,
    base: int,
    head: Seq<nat>,
    rest: Seq<nat>,
    n: int,
)
    requires
        0 <= n < rest.len(),
    ensures
        piece(graphemes, base, head + rest, head.len() + n) == piece(
            graphemes,
            base + total(head),
            rest,
            n,
        ),
{
    let plan = head + rest;
    assert(plan.take(head.len() + n) =~= head + rest.take(n));
    assert(plan.take(head.len() + n + 1) =~= head + rest.take(n + 1));
    lemma_total_add(head, rest.take(n));
    lemma_total_add(head, rest.take(n + 1));
}

/// Every chunk of a plan is as long as a line asked for, or shorter, or is a
/// lone space.
pub proof fn lemma_plan_pieces(
    graphemes: Seq<StyledText>,
    lengths: Seq<nat>,
    cursor: int,
    width: nat,
)
    requires
        0 <= cursor <= graphemes.len(),
        forall|k: int| 0 <= k < lengths.len() ==> lengths[k] <= width,
    ensures
        forall|n: int|
            0 <= n < chunk_plan(graphemes, lengths, cursor).len() ==> chunk_plan(
                graphemes,
                lengths,
                cursor,
            )[n] <= width || is_separator(
                #[trigger] piece(graphemes, cursor, chunk_plan(graphemes, lengths, cursor), n),
            ),
    decreases lengths.len(),
{
    let plan = chunk_plan(graphemes, lengths, cursor);
    if lengths.len() == 0 {
    } else if lengths.first() > 0 && cursor >= graphemes.len() {
    } else {
        let left = (graphemes.len() - cursor) as nat;
        let taken = if lengths.first() <= left {
            lengths.first()
        } else {
            left
        };
        let stop = cursor + taken;
        let tail = lengths.drop_first();
        assert forall|k: int| 0 <= k < tail.len() implies tail[k] <= width by {
            assert(tail[k] == lengths[k + 1]);
        }
        if stop < graphemes.len() && graphemes[stop].is_space() {
            let head = seq![taken, 1nat];
            let rest = chunk_plan(graphemes, tail, stop + 1);
            lemma_plan_pieces(graphemes, tail, stop + 1, width);
            assert(total(head) == taken + 1) by {
                reveal_with_fuel(total, 3);
                assert(head.drop_last() =~= seq![taken]);
                assert(seq![taken].drop_last() =~= Seq::<nat>::empty());
            }
            assert forall|n: int| 0 <= n < plan.len() implies plan[n] <= width || is_separator(
                #[trigger] piece(graphemes, cursor, plan, n),
            ) by {
                if n == 1 {
                    assert(plan.take(1) =~= seq![taken]);
                    assert(plan.take(2) =~= head);
                    assert(total(seq![taken]) == taken) by {
                        reveal_with_fuel(total, 2);
                        assert(seq![taken].drop_last() =~= Seq::<nat>::empty());
                    }
                    assert(piece(graphemes, cursor, plan, 1) =~= seq![graphemes[stop]]);
                } else if n >= 2 {
                    lemma_piece_shift(graphemes, cursor, head, rest, n - 2);
                    assert(plan[n] == rest[n - 2]);
                }
            }
        } else {
            let head = seq![taken];
            let rest = chunk_plan(graphemes, tail, stop);
            lemma_plan_pieces(graphemes, tail, stop, width);
            assert(total(head) == taken) by {
                reveal_with_fuel(total, 2);
                assert(head.drop_last() =~= Seq::<nat>::empty());
            }
            assert forall|n: int| 0 <= n < plan.len() implies plan[n] <= width || is_separator(
                #[trigger] piece(graphemes, cursor, plan, n),
            ) by {
                if n >= 1 {
                    lemma_piece_shift(graphemes, cursor, head, rest, n - 1);
                    assert(plan[n] == rest[n - 1]);
                }
            }
        }
    }
}

/// No row is a lone space.
pub proof fn lemma_rows_are_rows(graphemes: Seq<StyledText>, lengths: Seq<nat>)
    ensures
        forall|r: int|
            0 <= r < rows_of(graphemes, lengths).len() ==> !is_separator(
                #[trigger] rows_of(graphemes, lengths)[r],
            ),
{
    let keep = |row: Seq<StyledText>| is_row(row);
    let parts = chunks(graphemes, chunk_plan(graphemes, lengths, 0));
    assert forall|r: int| 0 <= r < rows_of(graphemes, lengths).len() implies !is_separator(
        #[trigger] rows_of(graphemes, lengths)[r],
    ) by {
        parts.lemma_filter_pred(keep, r);
    }
}

/// Wrapping keeps the clusters, their styles and their order. The chunks of
/// the plan, joined one after the other, are the clusters from the first up to
/// where the plan ends, and the rows are those chunks in order, without the
/// lone spaces. So where the plan accounts for every cluster, the rows and the
/// spaces dropped between them are the whole line; it does so at least where
/// the lengths of the lines add up to the number of clusters or more.
pub proof fn lemma_rows_keep_graphemes(graphemes: Seq<StyledText>, lengths: Seq<nat>)
    requires
        graphemes.len() > 0,
    ensures
        ({
            let plan = chunk_plan(graphemes, lengths, 0);
            let parts = chunks(graphemes, plan);
            &&& total(plan) <= graphemes.len()
            &&& parts.flatten() == graphemes.take(total(plan) as int)
            &&& total(plan) == graphemes.len() ==> parts.flatten() == graphemes
            &&& total(lengths) >= graphemes.len() ==> total(plan) == graphemes.len()
            &&& rows_of(graphemes, lengths) == parts.filter(|row: Seq<StyledText>| !is_separator(row))
        }),
{
    let plan = chunk_plan(graphemes, lengths, 0);
    lemma_plan_total(graphemes, lengths, 0);
    lemma_chunks_join(graphemes, plan);
    assert(graphemes.take(graphemes.len() as int) =~= graphemes);
    let keep = |row: Seq<StyledText>| is_row(row);
    let unseparated = |row: Seq<StyledText>| !is_separator(row);
    assert(keep =~= unseparated);
}

/// Rows are no longer than the lines: where every line has at most `width`
/// clusters, so has every row.
pub proof fn lemma_rows_fit(graphemes: Seq<StyledText>, lengths: Seq<nat>, width: nat)
    requires
        forall|k: int| 0 <= k < lengths.len() ==> lengths[k] <= width,
    ensures
        forall|r: int|
            0 <= r < rows_of(graphemes, lengths).len() ==> (#[trigger] rows_of(
                graphemes,
                lengths,
            )[r]).len() <= width,
{
    let keep = |row: Seq<StyledText>| is_row(row);
    let plan = chunk_plan(graphemes, lengths, 0);
    let parts = chunks(graphemes, plan);
    let rows = rows_of(graphemes, lengths);
    if graphemes.len() > 0 {
        lemma_plan_total(graphemes, lengths, 0);
        lemma_plan_pieces(graphemes, lengths, 0, width);
        assert forall|r: int| 0 <= r < rows.len() implies (#[trigger] rows[r]).len() <= width by {
            parts.lemma_filter_pred(keep, r);
            assert(parts.filter(keep).contains(rows[r]));
            parts.lemma_filter_contains_rev(keep, rows[r]);
            let n = choose|n: int| 0 <= n < parts.len() && parts[n] == rows[r];
            assert(parts[n] == piece(graphemes, 0, plan, n));
            lemma_total_take(plan, n + 1);
            assert(plan.take(n + 1).drop_last() =~= plan.take(n));
            assert(total(plan.take(n + 1)) == total(plan.take(n)) + plan[n]);
        }
    }
}

} // verus!

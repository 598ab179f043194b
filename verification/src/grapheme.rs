//! Grapheme clusters: what a reader takes for one character. A line is
//! wrapped and revealed cluster by cluster, never inside one.

use vstd::prelude::*;
use unicode_segmentation::UnicodeSegmentation;
use crate::style::{StyledGrapheme, StyledSegment, StyledText};

verus! {

/// The extended grapheme clusters of a text, in order, as
/// `unicode_segmentation::UnicodeSegmentation::graphemes` finds them.
pub uninterp spec fn grapheme_clusters(text: Seq<char>) -> Seq<Seq<char>>;

/// Calls `UnicodeSegmentation::graphemes` on `text`, asking for extended
/// clusters, and copies each cluster into a string of its own.
///
/// The clusters depend on the text alone, by the rules of Unicode Standard
/// Annex #29 as the crate implements them; the contract gives them their name
/// and states nothing else of them.
#[verifier::external_body]
pub(crate) fn split_graphemes(text: &str) -> (clusters: Vec<String>)
    ensures
        clusters.deep_view() == grapheme_clusters(text@),
{
    text.graphemes(true).map(|cluster| cluster.to_string()).collect()
}

/// The clusters of a segment's text, each in the segment's style.
pub open spec fn segment_graphemes(segment: StyledText) -> Seq<StyledText> {
    grapheme_clusters(segment.text).map_values(
        |cluster: Seq<char>| StyledText { text: cluster, style: segment.style },
    )
}

/// The clusters of all the segments, in reading order.
pub open spec fn styled_graphemes(segments: Seq<StyledText>) -> Seq<StyledText> {
    segments.map_values(|segment: StyledText| segment_graphemes(segment)).flatten()
}

/// The number of clusters in a text.
pub fn count_graphemes(text: &str) -> (count: usize)
    ensures
        count == grapheme_clusters(text@).len(),
{
    let clusters = split_graphemes(text);
    clusters.len()
}

/// Expands a styled line into its clusters, each with the style of the
/// segment it stands in.
pub fn graphemes_of(segments: &Vec<StyledSegment>) -> (graphemes: Vec<StyledGrapheme>)
    ensures
        graphemes.deep_view() == styled_graphemes(segments.deep_view()),
{
    let ghost expand = |segment: StyledText| segment_graphemes(segment);
    let mut graphemes: Vec<StyledGrapheme> = Vec::new();
    let mut next: usize = 0;
    proof {
        assert(segments.deep_view().take(0).map_values(expand) =~= Seq::<Seq<StyledText>>::empty());
        assert(graphemes.deep_view() =~= Seq::<StyledText>::empty());
    }
    while next < segments.len()
        invariant
            next <= segments@.len(),
            expand == |segment: StyledText| segment_graphemes(segment),
            graphemes.deep_view() == segments.deep_view().take(next as int).map_values(
                expand,
            ).flatten(),
        decreases segments.len() - next,
    {
        let segment = &segments[next];
        let clusters = split_graphemes(segment.text.as_str());
        let ghost before = graphemes.deep_view();
        let ghost added = segment_graphemes(segment@);
        let mut at: usize = 0;
        while at < clusters.len()
            invariant
                at <= clusters@.len(),
                clusters.deep_view() == grapheme_clusters(segment.text@),
                added == segment_graphemes(segment@),
                graphemes.deep_view() == before + added.take(at as int),
            decreases clusters.len() - at,
        {
            let ghost so_far = graphemes.deep_view();
            graphemes.push(StyledGrapheme { symbol: clusters[at].clone(), style: segment.style });
            proof {
                assert(clusters.deep_view()[at as int] == clusters@[at as int]@);
                assert(graphemes.deep_view() =~= so_far.push(added[at as int]));
                assert(added.take(at + 1) =~= added.take(at as int).push(added[at as int]));
            }
            at += 1;
        }
        proof {
            let done = segments.deep_view().take(next as int).map_values(expand);
            assert(added.take(at as int) =~= added);
            assert(segments.deep_view().take(next + 1).map_values(expand) =~= done.push(added));
            done.lemma_flatten_push(added);
        }
        next += 1;
    }
    proof {
        assert(segments.deep_view().take(next as int) =~= segments.deep_view());
    }
    graphemes
}

} // verus!

//! How a line is cut into synthesis chunks: which text each chunk speaks,
//! which source text it stands for, whose settings it uses, and which
//! speech windows it covers.
use vstd::prelude::*;
use crate::strings::{collapse_spaces, trim, trim_str, views};
use crate::order::sort_by_key;
use crate::segments::{
    global_synthesis_text, line_override_synthesis_segments, line_texts_view, naturalized,
    naturalized_terminal_punctuation, planned_segments, segment_texts_view, spoken_lines, tagged_text,
    LineText,
};
use crate::units::{
    alignment_chunk_count, chunk_count, law_rebalanced_has_target_count,
    law_window_groups_cover_windows_in_order, preferred_chunks,
    rebalance_text_units, rebalance_window_groups, rebalanced, scaled_index, scaled_source_index,
    split_text_candidates, text_candidates, window_groups,
};

verus! {

/// The whole-file text as a single plan entry, or none when it is empty.
pub open spec fn global_plan(pinned: Seq<Seq<char>>, text: Seq<char>) -> Seq<(Seq<char>, Option<usize>)> {
    let g = naturalized(tagged_text(pinned, collapse_spaces(text)));
    if g.len() > 0 {
        seq![(g, None)]
    } else {
        seq![]
    }
}

/// The texts to speak, each with the override whose settings it uses
/// (`None`: the request's own): one per line with text when there are
/// per-line overrides, else the whole file; the whole file too when the
/// overrides leave nothing and the line is not blank.
pub open spec fn textual_plan(
    pinned: Seq<Seq<char>>,
    text: Seq<char>,
    lines: Seq<(usize, Seq<char>, Seq<Seq<char>>)>,
) -> Seq<(Seq<char>, Option<usize>)> {
    let primary = if lines.len() == 0 {
        global_plan(pinned, text)
    } else {
        planned_segments(pinned, lines, sort_by_key(spoken_lines(lines))).map_values(
            |s: (usize, usize, Seq<char>)| (s.2, Some(s.0)),
        )
    };
    if primary.len() == 0 && trim(text).len() > 0 {
        global_plan(pinned, text)
    } else {
        primary
    }
}

/// What a chunk speaks: its share of the text with sentence-final
/// punctuation, or the whole line when its share is blank.
pub open spec fn chunk_text(share: Seq<char>, text: Seq<char>) -> Seq<char> {
    if trim(naturalized(share)).len() == 0 {
        naturalized(text)
    } else {
        naturalized(share)
    }
}

/// The number of chunks a plan asks for.
pub open spec fn plan_target(
    plan: Seq<(Seq<char>, Option<usize>)>,
    window_count: nat,
    minimum_chunks: nat,
    has_line_overrides: bool,
) -> nat {
    chunk_count(
        window_count,
        minimum_chunks,
        preferred_chunks(has_line_overrides, Some(plan[0].0), plan.len()),
    )
}

/// One synthesis chunk of a line.
pub struct ChunkPlan {
    pub text: String,
    /// The part of the source text the chunk stands for.
    pub source_text: String,
    /// The override whose settings the chunk uses; `None` for the request's
    /// own settings.
    pub settings_line: Option<usize>,
    /// First and last speech window the chunk covers.
    pub first_window: usize,
    pub last_window: usize,
    /// Position of the chunk, counted from 1.
    pub chunk_index: usize,
    pub total_chunks: usize,
}

/// Cuts a line into chunks: the texts to speak are shared out over the
/// speech windows, merged so that there are as many chunks as the text asks
/// for (at least `minimum_chunks`, the least the windows' span needs, and at
/// most one per window), and the source text is shared out the same way.
pub fn plan_synthesis_chunks(
    text: &str,
    source_text: &str,
    pinned_tags: &Vec<String>,
    lines: &Vec<LineText>,
    window_count: usize,
    minimum_chunks: usize,
) -> (r: Vec<ChunkPlan>)
    requires
        forall|i: int| 0 <= i < lines.len() ==> #[trigger] lines@[i].line_index < usize::MAX,
    ensures
        ({
            let plan = textual_plan(views(pinned_tags@), text@, line_texts_view(lines@));
            if plan.len() == 0 || window_count == 0 {
                r@.len() == 0
            } else {
                let target = plan_target(plan, window_count as nat, minimum_chunks as nat, lines.len() > 0);
                let groups = window_groups(window_count as nat, target);
                let n = groups.len();
                let shares = rebalanced(plan.map_values(|e: (Seq<char>, Option<usize>)| e.0), n);
                let sources = rebalanced(text_candidates(source_text@, false), n);
                &&& r@.len() == n
                &&& forall|i: int|
                    0 <= i < n ==> {
                        let c = #[trigger] r@[i];
                        &&& c.text@ == chunk_text(shares[i], text@)
                        &&& c.source_text@ == sources[i]
                        &&& c.settings_line == plan[scaled_index(i, plan.len() as int, n as int)].1
                        &&& (c.first_window as int, c.last_window as int) == groups[i]
                        &&& c.chunk_index == i + 1
                        &&& c.total_chunks == n
                    }
            }
        }),
        r@.len() > 0 ==> {
            &&& r@[0].first_window == 0
            &&& r@.last().last_window == window_count - 1
            &&& forall|i: int|
                0 < i < r@.len() ==> (#[trigger] r@[i]).first_window == r@[i - 1].last_window + 1
            &&& forall|i: int| 0 <= i < r@.len() ==> (#[trigger] r@[i]).first_window <= r@[i].last_window
        },
{
    let ghost pinned = views(pinned_tags@);
    let ghost lv = line_texts_view(lines@);
    let ghost plan = textual_plan(pinned, text@, lv);
    let mut texts: Vec<String> = Vec::new();
    let mut owners: Vec<Option<usize>> = Vec::new();
    if lines.len() > 0 {
        let segments = line_override_synthesis_segments(pinned_tags, lines);
        let ghost planned = planned_segments(pinned, lv, sort_by_key(spoken_lines(lv)));
        let mut i: usize = 0;
        while i < segments.len()
            invariant
                i <= segments.len(),
                segment_texts_view(segments@) == planned,
                texts@.len() == i,
                owners@.len() == i,
                forall|k: int| 0 <= k < i ==> (#[trigger] texts@[k])@ == planned[k].2,
                forall|k: int| 0 <= k < i ==> #[trigger] owners@[k] == Some(planned[k].0),
            decreases segments.len() - i,
        {
            assert(segment_texts_view(segments@)[i as int] == (
                segments@[i as int].source,
                segments@[i as int].chunk_index,
                segments@[i as int].text@,
            ));
            texts.push(segments[i].text.clone());
            owners.push(Some(segments[i].source));
            i = i + 1;
        }
    }
    let ghost primary = if lines.len() == 0 {
        global_plan(pinned, text@)
    } else {
        planned_segments(pinned, lv, sort_by_key(spoken_lines(lv))).map_values(
            |s: (usize, usize, Seq<char>)| (s.2, Some(s.0)),
        )
    };
    if texts.len() == 0 && (lines.len() == 0 || !trim_str(text).as_str().is_empty()) {
        match global_synthesis_text(pinned_tags, text) {
            Some(g) => {
                texts.push(g);
                owners.push(None);
            },
            None => {},
        }
    }
    assert(texts@.len() == plan.len());
    assert(forall|k: int| 0 <= k < plan.len() ==> (#[trigger] texts@[k])@ == plan[k].0);
    assert(forall|k: int| 0 <= k < plan.len() ==> #[trigger] owners@[k] == plan[k].1);
    assert(views(texts@) == plan.map_values(|e: (Seq<char>, Option<usize>)| e.0));
    if texts.len() == 0 || window_count == 0 {
        return Vec::new();
    }
    let target = alignment_chunk_count(
        window_count,
        minimum_chunks,
        lines.len() > 0,
        Some(texts[0].as_str()),
        texts.len(),
    );
    let groups = rebalance_window_groups(window_count, target);
    let n = groups.len();
    let plan_len = texts.len();
    let shares = rebalance_text_units(texts, n);
    let sources = rebalance_text_units(split_text_candidates(source_text), n);
    proof {
        law_rebalanced_has_target_count(plan.map_values(|e: (Seq<char>, Option<usize>)| e.0), n as nat);
        law_rebalanced_has_target_count(text_candidates(source_text@, false), n as nat);
    }
    let mut out: Vec<ChunkPlan> = Vec::new();
    let mut index: usize = 0;
    while index < n
        invariant
            index <= n,
            n == groups@.len(),
            plan_len == plan.len() == owners@.len(),
            plan_len > 0,
            shares@.len() == n,
            sources@.len() == n,
            forall|k: int| 0 <= k < plan.len() ==> #[trigger] owners@[k] == plan[k].1,
            out@.len() == index,
            forall|i: int|
                0 <= i < index ==> {
                    let c = #[trigger] out@[i];
                    &&& c.text@ == chunk_text(shares@[i]@, text@)
                    &&& c.source_text@ == sources@[i]@
                    &&& c.settings_line == plan[scaled_index(i, plan.len() as int, n as int)].1
                    &&& c.first_window == groups@[i].0
                    &&& c.last_window == groups@[i].1
                    &&& c.chunk_index == i + 1
                    &&& c.total_chunks == n
                },
        decreases n - index,
    {
        let si = scaled_source_index(index, plan_len, n);
        assert(si < plan_len);
        let natural = naturalized_terminal_punctuation(shares[index].as_str());
        let spoken = if trim_str(natural.as_str()).as_str().is_empty() {
            naturalized_terminal_punctuation(text)
        } else {
            natural
        };
        let (first_window, last_window) = groups[index];
        out.push(
            ChunkPlan {
                text: spoken,
                source_text: sources[index].clone(),
                settings_line: owners[si],
                first_window,
                last_window,
                chunk_index: index + 1,
                total_chunks: n,
            },
        );
        index = index + 1;
    }
    proof {
        let target_spec = plan_target(plan, window_count as nat, minimum_chunks as nat, lines.len() > 0);
        assert(target as nat == target_spec);
        let g = window_groups(window_count as nat, target as nat);
        assert forall|i: int| 0 <= i < n implies ((#[trigger] out@[i]).first_window as int, out@[i].last_window as int) == g[i] by {
            assert((groups@[i].0 as int, groups@[i].1 as int) == g[i]);
        }
        law_window_groups_cover_windows_in_order(window_count as nat, target as nat);
        assert(out@.last() == out@[n - 1]);
        assert forall|i: int| 0 < i < out@.len() implies (#[trigger] out@[i]).first_window
            == out@[i - 1].last_window + 1 by {
            assert((out@[i - 1].first_window as int, out@[i - 1].last_window as int) == g[i - 1]);
            assert((out@[i].first_window as int, out@[i].last_window as int) == g[i]);
        }
    }
    out
}

} // verus!

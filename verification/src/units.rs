//! Cutting a line into text units at sentence (and, when asked, clause)
//! boundaries, folding tiny units into their neighbours, and matching the
//! number of units to the number of time windows.
use vstd::prelude::*;
use vstd::arithmetic::div_mod::{lemma_div_by_multiple, lemma_div_is_ordered, lemma_div_pos_is_pos};
use vstd::arithmetic::mul::lemma_mul_inequality;
use crate::strings::{
    chars_of, collapse_spaces, is_word, join, join_strings, lemma_word_is_single, lemma_words_are_words,
    lemma_words_spaced, lemma_words_trim, split_words,
    split_words_str, trim, trim_bounds, trim_str, views, words,
};

verus! {

pub open spec fn is_hard_boundary(c: char) -> bool {
    c == '.' || c == '!' || c == '?' || c == '\u{2026}' || c == '\n'
}

pub open spec fn is_soft_boundary(c: char) -> bool {
    c == ',' || c == ';' || c == ':'
}

/// Sentence marks always end a unit; commas, semicolons and colons do when
/// `soft` is set.
pub open spec fn is_boundary(c: char, soft: bool) -> bool {
    is_hard_boundary(c) || (soft && is_soft_boundary(c))
}

/// The units with `current`, its whitespace collapsed, added when it is not
/// blank.
pub open spec fn add_candidate(units: Seq<Seq<char>>, current: Seq<char>) -> Seq<Seq<char>> {
    if collapse_spaces(current).len() > 0 {
        units.push(collapse_spaces(current))
    } else {
        units
    }
}

/// Units closed so far, and the text of the one still open, after reading
/// `s`; a unit ends with the boundary mark that closes it.
pub open spec fn boundary_scan(s: Seq<char>, soft: bool) -> (Seq<Seq<char>>, Seq<char>)
    decreases s.len(),
{
    if s.len() == 0 {
        (seq![], seq![])
    } else {
        let prev = boundary_scan(s.drop_last(), soft);
        let current = prev.1.push(s.last());
        if is_boundary(s.last(), soft) {
            (add_candidate(prev.0, current), seq![])
        } else {
            (prev.0, current)
        }
    }
}

pub open spec fn raw_candidates(s: Seq<char>, soft: bool) -> Seq<Seq<char>> {
    let scan = boundary_scan(s, soft);
    let units = add_candidate(scan.0, scan.1);
    if units.len() == 0 && trim(s).len() > 0 {
        seq![collapse_spaces(s)]
    } else {
        units
    }
}

pub open spec fn word_total(s: Seq<char>) -> nat {
    words(s).len()
}

/// `a`, a space, then `b`.
pub open spec fn spaced(a: Seq<char>, b: Seq<char>) -> Seq<char> {
    a + seq![' '] + b
}

/// Units of fewer than three words appended to the unit before them.
pub open spec fn merge_scan(units: Seq<Seq<char>>) -> Seq<Seq<char>>
    decreases units.len(),
{
    if units.len() == 0 {
        seq![]
    } else {
        let prev = merge_scan(units.drop_last());
        let u = units.last();
        if word_total(u) < 3 && prev.len() > 0 {
            prev.update(prev.len() - 1, spaced(prev.last(), trim(u)))
        } else {
            prev.push(u)
        }
    }
}

/// A last unit of fewer than three words appended to the one before it.
pub open spec fn merge_tail(m: Seq<Seq<char>>) -> Seq<Seq<char>> {
    if m.len() > 1 && word_total(m.last()) < 3 {
        let p = m.drop_last();
        p.update(p.len() - 1, spaced(p.last(), trim(m.last())))
    } else {
        m
    }
}

/// A first unit of fewer than three words put in front of the one after it.
pub open spec fn merge_head(m: Seq<Seq<char>>) -> Seq<Seq<char>> {
    if m.len() > 1 && word_total(m[0]) < 3 {
        let rest = m.drop_first();
        rest.update(0, spaced(trim(m[0]), trim(rest[0])))
    } else {
        m
    }
}

pub open spec fn merged_units(units: Seq<Seq<char>>) -> Seq<Seq<char>> {
    merge_head(merge_tail(merge_scan(units)))
}

/// The text units of a line.
pub open spec fn text_candidates(s: Seq<char>, soft: bool) -> Seq<Seq<char>> {
    merged_units(raw_candidates(s, soft))
}

/// First item of group `index` when `n` items are shared by `target` groups.
pub open spec fn group_start(index: int, n: int, target: int) -> int {
    index * n / target
}

/// End (exclusive) of group `index`; the last group runs to the end.
pub open spec fn group_end(index: int, n: int, target: int) -> int {
    if index + 1 == target {
        n
    } else {
        (index + 1) * n / target
    }
}

/// The items shared out in `target` consecutive groups, each group's
/// items joined by spaces.
pub open spec fn combined(units: Seq<Seq<char>>, target: nat) -> Seq<Seq<char>> {
    Seq::new(
        target,
        |index: int|
            join(
                units.subrange(
                    group_start(index, units.len() as int, target as int),
                    group_end(index, units.len() as int, target as int),
                ),
                seq![' '],
            ),
    )
}

pub open spec fn blanks(count: nat) -> Seq<Seq<char>> {
    Seq::new(count, |i: int| Seq::<char>::empty())
}

/// `target` units cut from a text: at clause boundaries when there are
/// enough of them, else by words.
pub open spec fn split_units(text: Seq<char>, target: nat) -> Seq<Seq<char>> {
    let soft = text_candidates(text, true);
    if soft.len() >= target {
        combined(soft, target)
    } else if words(text).len() == 0 {
        blanks(target)
    } else {
        combined(words(text), target)
    }
}

/// The units that are not blank.
pub open spec fn non_blank_units(units: Seq<Seq<char>>) -> Seq<Seq<char>>
    decreases units.len(),
{
    if units.len() == 0 {
        seq![]
    } else if trim(units.last()).len() > 0 {
        non_blank_units(units.drop_last()).push(units.last())
    } else {
        non_blank_units(units.drop_last())
    }
}

/// Exactly `target` units holding the text of the non-blank ones.
pub open spec fn rebalanced(units: Seq<Seq<char>>, target: nat) -> Seq<Seq<char>> {
    let kept = non_blank_units(units);
    if target == 0 {
        seq![]
    } else if kept.len() == 0 {
        blanks(target)
    } else if kept.len() == target {
        kept
    } else if kept.len() > target {
        combined(kept, target)
    } else {
        split_units(join(kept, seq![' ']), target)
    }
}

pub proof fn lemma_group_bounds(index: int, n: int, target: int)
    requires
        0 <= index < target,
        0 <= n,
    ensures
        0 <= group_start(index, n, target) <= group_end(index, n, target) <= n,
{
    lemma_div_pos_is_pos(index * n, target);
    lemma_mul_inequality(index, index + 1, n);
    lemma_div_is_ordered(index * n, (index + 1) * n, target);
    lemma_mul_inequality(index + 1, target, n);
    lemma_div_is_ordered((index + 1) * n, target * n, target);
    lemma_div_by_multiple(n, target);
    assert(n * target == target * n) by (nonlinear_arith);
}

/// `index * n / target`, computed without overflow.
pub fn scaled(index: usize, n: usize, target: usize) -> (r: usize)
    requires
        target > 0,
        index <= target,
    ensures
        r == (index * n) / (target as int),
        r <= n,
{
    proof {
        assert(index * n <= target * n) by (nonlinear_arith)
            requires
                index <= target,
                n >= 0,
        ;
        lemma_div_is_ordered(index * n, target * n, target as int);
        lemma_div_by_multiple(n as int, target as int);
        assert(n * target == target * n) by (nonlinear_arith);
        let a = index as int;
        let b = n as int;
        assert(a * b <= 0xffff_ffff_ffff_ffff * 0xffff_ffff_ffff_ffff) by (nonlinear_arith)
            requires
                0 <= a <= 0xffff_ffff_ffff_ffff,
                0 <= b <= 0xffff_ffff_ffff_ffff,
        ;
    }
    let product = (index as u128) * (n as u128);
    (product / (target as u128)) as usize
}

/// Joins `parts[from..to]` with single spaces.
pub fn join_range(parts: &Vec<String>, from: usize, to: usize) -> (s: String)
    requires
        from <= to <= parts.len(),
    ensures
        s@ == join(views(parts@).subrange(from as int, to as int), seq![' ']),
{
    let mut s = String::new();
    let mut i = from;
    while i < to
        invariant
            from <= i <= to <= parts.len(),
            s@ == join(views(parts@).subrange(from as int, i as int), seq![' ']),
        decreases to - i,
    {
        assert(views(parts@).subrange(from as int, i + 1).drop_last() == views(parts@).subrange(
            from as int,
            i as int,
        ));
        if i > from {
            s.push(' ');
        }
        s.append(parts[i].as_str());
        i = i + 1;
    }
    s
}

/// Shares the units out in `target` groups, joined by spaces.
pub fn combine_text_units(units: Vec<String>, target_count: usize) -> (r: Vec<String>)
    ensures
        views(r@) == combined(views(units@), target_count as nat),
{
    let n = units.len();
    let mut out: Vec<String> = Vec::new();
    let mut index: usize = 0;
    while index < target_count
        invariant
            index <= target_count,
            n == units.len(),
            views(out@) =~= combined(views(units@), target_count as nat).take(index as int),
        decreases target_count - index,
    {
        proof {
            lemma_group_bounds(index as int, n as int, target_count as int);
        }
        let start = scaled(index, n, target_count);
        let end = if index + 1 == target_count {
            n
        } else {
            scaled(index + 1, n, target_count)
        };
        let piece = join_range(&units, start, end);
        let ghost prev = out@;
        out.push(piece);
        assert(views(out@) =~= views(prev).push(piece@));
        index = index + 1;
    }
    out
}

pub fn blank_units(count: usize) -> (r: Vec<String>)
    ensures
        views(r@) == blanks(count as nat),
{
    let mut r: Vec<String> = Vec::new();
    let mut i: usize = 0;
    while i < count
        invariant
            i <= count,
            views(r@) =~= blanks(count as nat).take(i as int),
        decreases count - i,
    {
        let ghost prev = r@;
        let e = String::new();
        r.push(e);
        assert(views(r@) =~= views(prev).push(e@));
        i = i + 1;
    }
    r
}

pub fn word_count(text: &str) -> (n: usize)
    ensures
        n == word_total(text@),
{
    split_words_str(text).len()
}

/// Closes the open unit: its text, whitespace collapsed, joins the units
/// unless blank.
pub fn push_text_candidate(candidates: &mut Vec<String>, current: &mut String)
    ensures
        views(final(candidates)@) == add_candidate(views(old(candidates)@), old(current)@),
        final(current)@ == Seq::<char>::empty(),
{
    let parts = split_words_str(current.as_str());
    proof {
        reveal_strlit(" ");
        assert(" "@ =~= seq![' ']);
    }
    let candidate = join_strings(&parts, " ");
    if !candidate.as_str().is_empty() {
        let ghost prev = candidates@;
        let ghost c = candidate@;
        candidates.push(candidate);
        assert(views(candidates@) =~= views(prev).push(c));
    }
    *current = String::new();
}

/// Joins `a`, a space and the trimmed `b`.
pub fn spaced_with_trimmed(a: &str, b: &str) -> (r: String)
    ensures
        r@ == spaced(a@, trim(b@)),
{
    let mut r = String::from_str(a);
    r.push(' ');
    let t = trim_str(b);
    r.append(t.as_str());
    r
}

/// Folds units of fewer than three words into their neighbours.
pub fn merge_tiny_text_units(units: Vec<String>) -> (r: Vec<String>)
    ensures
        views(r@) == merged_units(views(units@)),
{
    let mut merged: Vec<String> = Vec::new();
    let mut i: usize = 0;
    while i < units.len()
        invariant
            i <= units.len(),
            views(merged@) == merge_scan(views(units@).take(i as int)),
        decreases units.len() - i,
    {
        let unit = units[i].as_str();
        assert(views(units@).take(i + 1).drop_last() == views(units@).take(i as int));
        assert(views(units@).take(i + 1).last() == unit@);
        let ghost prev = merged@;
        if word_count(unit) < 3 && merged.len() > 0 {
            let k = merged.len() - 1;
            let joined = spaced_with_trimmed(merged[k].as_str(), unit);
            merged.set(k, joined);
            assert(views(merged@) =~= views(prev).update(k as int, joined@));
        } else {
            merged.push(String::from_str(unit));
            assert(views(merged@) =~= views(prev).push(unit@));
        }
        i = i + 1;
    }
    assert(views(units@).take(units.len() as int) == views(units@));
    let ghost scanned = views(merged@);
    if merged.len() > 1 && word_count(merged[merged.len() - 1].as_str()) < 3 {
        let ghost before = merged@;
        let tail = merged.pop();
        match tail {
            Some(tail) => {
                assert(views(merged@) =~= scanned.drop_last());
                let k = merged.len() - 1;
                let joined = spaced_with_trimmed(merged[k].as_str(), tail.as_str());
                let ghost mid = merged@;
                merged.set(k, joined);
                assert(views(merged@) =~= views(mid).update(k as int, joined@));
            },
            None => {},
        }
    }
    let ghost tailed = views(merged@);
    assert(tailed == merge_tail(scanned));
    if merged.len() > 1 && word_count(merged[0].as_str()) < 3 {
        let head = merged.remove(0);
        assert(views(merged@) =~= tailed.drop_first());
        let joined = spaced_with_trimmed(trim_str(head.as_str()).as_str(), merged[0].as_str());
        let ghost mid = merged@;
        merged.set(0, joined);
        assert(views(merged@) =~= views(mid).update(0, joined@));
    }
    merged
}

/// Cuts a line into units at sentence marks (and clause marks when `soft`
/// is set), then folds tiny units into their neighbours.
pub fn split_text_candidates_by_boundaries(text: &str, include_soft_boundaries: bool) -> (r: Vec<
    String,
>)
    ensures
        views(r@) == text_candidates(text@, include_soft_boundaries),
{
    let chars = chars_of(text);
    let mut candidates: Vec<String> = Vec::new();
    let mut current = String::new();
    let mut i: usize = 0;
    while i < chars.len()
        invariant
            i <= chars.len(),
            (views(candidates@), current@) == boundary_scan(
                chars@.take(i as int),
                include_soft_boundaries,
            ),
        decreases chars.len() - i,
    {
        let c = chars[i];
        assert(chars@.take(i + 1).drop_last() == chars@.take(i as int));
        current.push(c);
        let hard = c == '.' || c == '!' || c == '?' || c == '\u{2026}' || c == '\n';
        let soft = c == ',' || c == ';' || c == ':';
        if hard || (include_soft_boundaries && soft) {
            push_text_candidate(&mut candidates, &mut current);
        }
        i = i + 1;
    }
    assert(chars@.take(chars.len() as int) == chars@);
    push_text_candidate(&mut candidates, &mut current);
    assert(views(candidates@) == add_candidate(
        boundary_scan(text@, include_soft_boundaries).0,
        boundary_scan(text@, include_soft_boundaries).1,
    ));
    if candidates.len() == 0 {
        let (a, b) = trim_bounds(&chars);
        if a < b {
            let parts = split_words(&chars);
            proof {
                reveal_strlit(" ");
                assert(" "@ =~= seq![' ']);
            }
            let whole = join_strings(&parts, " ");
            let ghost prev = candidates@;
            let ghost w = whole@;
            candidates.push(whole);
            assert(views(candidates@) =~= views(prev).push(w));
            assert(trim(text@).len() > 0);
            assert(views(candidates@) =~= raw_candidates(text@, include_soft_boundaries));
        }
    }
    assert(views(candidates@) =~= raw_candidates(text@, include_soft_boundaries));
    merge_tiny_text_units(candidates)
}

/// Units at sentence marks.
pub fn split_text_candidates(text: &str) -> (r: Vec<String>)
    ensures
        views(r@) == text_candidates(text@, false),
{
    split_text_candidates_by_boundaries(text, false)
}

/// Units at sentence and clause marks.
pub fn split_text_candidates_with_soft_boundaries(text: &str) -> (r: Vec<String>)
    ensures
        views(r@) == text_candidates(text@, true),
{
    split_text_candidates_by_boundaries(text, true)
}

/// Cuts a text into `target_count` units, at clause marks when there are
/// enough of them, else by words.
pub fn split_text_units(text: String, target_count: usize) -> (r: Vec<String>)
    ensures
        views(r@) == split_units(text@, target_count as nat),
{
    let soft_units = split_text_candidates_with_soft_boundaries(text.as_str());
    if soft_units.len() >= target_count {
        return combine_text_units(soft_units, target_count);
    }
    let tokens = split_words_str(text.as_str());
    if tokens.len() == 0 {
        return blank_units(target_count);
    }
    combine_text_units(tokens, target_count)
}

/// Exactly `target_count` units carrying the text of the non-blank ones.
pub fn rebalance_text_units(units: Vec<String>, target_count: usize) -> (r: Vec<String>)
    ensures
        views(r@) == rebalanced(views(units@), target_count as nat),
{
    if target_count == 0 {
        return Vec::new();
    }
    let mut kept: Vec<String> = Vec::new();
    let mut i: usize = 0;
    while i < units.len()
        invariant
            i <= units.len(),
            views(kept@) == non_blank_units(views(units@).take(i as int)),
        decreases units.len() - i,
    {
        let unit = units[i].as_str();
        assert(views(units@).take(i + 1).drop_last() == views(units@).take(i as int));
        assert(views(units@).take(i + 1).last() == unit@);
        let (a, b) = trim_bounds(&chars_of(unit));
        if a < b {
            let ghost prev = kept@;
            kept.push(String::from_str(unit));
            assert(views(kept@) =~= views(prev).push(unit@));
        }
        i = i + 1;
    }
    assert(views(units@).take(units.len() as int) == views(units@));
    if kept.len() == 0 {
        return blank_units(target_count);
    }
    if kept.len() == target_count {
        return kept;
    }
    if kept.len() > target_count {
        return combine_text_units(kept, target_count);
    }
    proof {
        reveal_strlit(" ");
        assert(" "@ =~= seq![' ']);
    }
    let joined = join_strings(&kept, " ");
    split_text_units(joined, target_count)
}

/// Which of `source_len` items stands for item `index` of `target_len`.
pub open spec fn scaled_index(index: int, source_len: int, target_len: int) -> int {
    if source_len <= 1 || target_len == 0 {
        0
    } else if index * source_len / target_len < source_len - 1 {
        index * source_len / target_len
    } else {
        source_len - 1
    }
}

pub fn scaled_source_index(index: usize, source_len: usize, target_len: usize) -> (r: usize)
    ensures
        r == scaled_index(index as int, source_len as int, target_len as int),
{
    if source_len <= 1 || target_len == 0 {
        return 0;
    }
    proof {
        let a = index as int;
        let b = source_len as int;
        assert(a * b <= 0xffff_ffff_ffff_ffff * 0xffff_ffff_ffff_ffff) by (nonlinear_arith)
            requires
                0 <= a <= 0xffff_ffff_ffff_ffff,
                0 <= b <= 0xffff_ffff_ffff_ffff,
        ;
        lemma_div_pos_is_pos(a * b, target_len as int);
    }
    let scaled_value = ((index as u128) * (source_len as u128)) / (target_len as u128);
    if scaled_value < (source_len - 1) as u128 {
        scaled_value as usize
    } else {
        source_len - 1
    }
}

/// Groups of consecutive windows, as (first, last) positions, when `count`
/// windows are merged into `target` groups; with no more windows than
/// groups each window stands alone.
pub open spec fn window_groups(count: nat, target: nat) -> Seq<(int, int)> {
    if target == 0 || count <= target {
        Seq::new(count, |i: int| (i, i))
    } else {
        Seq::new(
            target,
            |index: int|
                (
                    group_start(index, count as int, target as int),
                    group_end(index, count as int, target as int) - 1,
                ),
        )
    }
}

/// The first and last window of each group when `count` speech windows are
/// merged into `target_count` groups.
pub fn rebalance_window_groups(count: usize, target_count: usize) -> (r: Vec<(usize, usize)>)
    ensures
        r@.len() == window_groups(count as nat, target_count as nat).len(),
        forall|i: int|
            0 <= i < r@.len() ==> (r@[i].0 as int, r@[i].1 as int) == #[trigger] window_groups(
                count as nat,
                target_count as nat,
            )[i],
{
    let mut r: Vec<(usize, usize)> = Vec::new();
    if target_count == 0 || count <= target_count {
        let mut i: usize = 0;
        while i < count
            invariant
                i <= count,
                target_count == 0 || count <= target_count,
                r@.len() == i,
                forall|j: int| 0 <= j < i ==> r@[j] == (j as usize, j as usize),
            decreases count - i,
        {
            r.push((i, i));
            i = i + 1;
        }
        return r;
    }
    let mut index: usize = 0;
    while index < target_count
        invariant
            index <= target_count,
            target_count < count,
            r@.len() == index,
            forall|j: int|
                0 <= j < index ==> (r@[j].0 as int, r@[j].1 as int) == (
                    group_start(j, count as int, target_count as int),
                    group_end(j, count as int, target_count as int) - 1,
                ),
        decreases target_count - index,
    {
        proof {
            lemma_group_bounds(index as int, count as int, target_count as int);
            lemma_group_nonempty(index as int, count as int, target_count as int);
        }
        let start = scaled(index, count, target_count);
        let end = if index + 1 == target_count {
            count
        } else {
            scaled(index + 1, count, target_count)
        };
        r.push((start, end - 1));
        index = index + 1;
    }
    r
}

pub proof fn lemma_group_nonempty(index: int, n: int, target: int)
    requires
        0 <= index < target < n,
    ensures
        group_start(index, n, target) < group_end(index, n, target),
{
    lemma_group_bounds(index, n, target);
    if index + 1 < target {
        assert((index + 1) * n == index * n + n) by (nonlinear_arith);
        assert(index * n / target + 1 <= (index * n + n) / target) by (nonlinear_arith)
            requires
                n > target,
                target > 0,
                index >= 0,
        ;
    } else {
        assert(index * n / target < n) by (nonlinear_arith)
            requires
                index < target,
                target > 0,
                n > 0,
        ;
    }
}


/// Every group of a split of `n` items into `target <= n` groups has at
/// least one item.
pub proof fn lemma_group_nonempty_up_to(index: int, n: int, target: int)
    requires
        0 <= index < target <= n,
    ensures
        group_start(index, n, target) < group_end(index, n, target),
{
    if target < n {
        lemma_group_nonempty(index, n, target);
    } else {
        lemma_div_by_multiple(index, n);
        assert(index * n == n * index) by (nonlinear_arith);
        if index + 1 < target {
            lemma_div_by_multiple(index + 1, n);
            assert((index + 1) * n == n * (index + 1)) by (nonlinear_arith);
        }
    }
}

/// Joining two non-empty lists is joining each and putting the separator
/// between them.
pub proof fn lemma_join_concat(a: Seq<Seq<char>>, b: Seq<Seq<char>>, sep: Seq<char>)
    requires
        a.len() > 0,
        b.len() > 0,
    ensures
        join(a + b, sep) == join(a, sep) + sep + join(b, sep),
    decreases b.len(),
{
    if b.len() == 1 {
        assert((a + b).drop_last() =~= a);
        assert(join(b, sep) == b[0]);
    } else {
        assert((a + b).drop_last() =~= a + b.drop_last());
        lemma_join_concat(a, b.drop_last(), sep);
        assert(join(a + b.drop_last(), sep) + sep + b.last() =~= join(a, sep) + sep + (join(
            b.drop_last(),
            sep,
        ) + sep + b.last()));
    }
}

/// The first `k` groups, joined, read as the units up to the end of group
/// `k - 1`, joined.
pub proof fn lemma_combined_prefix(units: Seq<Seq<char>>, target: nat, k: int)
    requires
        0 < target <= units.len(),
        1 <= k <= target,
    ensures
        join(combined(units, target).take(k), seq![' ']) == join(
            units.subrange(0, group_end(k - 1, units.len() as int, target as int)),
            seq![' '],
        ),
    decreases k,
{
    let n = units.len() as int;
    let t = target as int;
    let groups = combined(units, target);
    let sep = seq![' '];
    if k == 1 {
        lemma_group_bounds(0, n, t);
        assert(group_start(0, n, t) == 0);
        assert(groups.take(1) =~= seq![groups[0]]);
    } else {
        lemma_combined_prefix(units, target, k - 1);
        lemma_group_bounds(k - 2, n, t);
        lemma_group_bounds(k - 1, n, t);
        lemma_group_nonempty_up_to(k - 2, n, t);
        lemma_group_nonempty_up_to(k - 1, n, t);
        let mid = group_end(k - 2, n, t);
        let end = group_end(k - 1, n, t);
        assert(group_start(k - 1, n, t) == mid);
        assert(groups.take(k) =~= groups.take(k - 1) + seq![groups[k - 1]]);
        assert(join(seq![groups[k - 1]], sep) == groups[k - 1]);
        assert(groups[k - 1] == join(units.subrange(mid, end), sep));
        lemma_join_concat(groups.take(k - 1), seq![groups[k - 1]], sep);
        lemma_join_concat(units.subrange(0, mid), units.subrange(mid, end), sep);
        assert(units.subrange(0, mid) + units.subrange(mid, end) =~= units.subrange(0, end));
    }
}

/// Sharing units out in fewer (or as many) groups loses nothing and
/// repeats nothing: the groups, joined by spaces, read exactly as the units
/// joined by spaces.
pub proof fn law_combined_keeps_text(units: Seq<Seq<char>>, target: nat)
    requires
        0 < target <= units.len(),
    ensures
        combined(units, target).len() == target,
        join(combined(units, target), seq![' ']) == join(units, seq![' ']),
{
    lemma_combined_prefix(units, target, target as int);
    assert(combined(units, target).take(target as int) =~= combined(units, target));
    assert(units.subrange(0, units.len() as int) =~= units);
}

/// Rebalancing always gives exactly as many units as there are windows.
pub proof fn law_rebalanced_has_target_count(units: Seq<Seq<char>>, target: nat)
    ensures
        rebalanced(units, target).len() == target,
{
    let kept = non_blank_units(units);
    if target > 0 && kept.len() < target && kept.len() > 0 {
        let text = join(kept, seq![' ']);
        let soft = text_candidates(text, true);
        assert(split_units(text, target).len() == target);
    }
}

/// When there are at least as many non-blank units as windows, the
/// rebalanced units hold exactly the text of the non-blank units, in order.
pub proof fn law_rebalance_keeps_text(units: Seq<Seq<char>>, target: nat)
    requires
        0 < target <= non_blank_units(units).len(),
    ensures
        join(rebalanced(units, target), seq![' ']) == join(non_blank_units(units), seq![' ']),
{
    if non_blank_units(units).len() > target {
        law_combined_keeps_text(non_blank_units(units), target);
    }
}

/// The words of the units, one unit after another.
pub open spec fn all_words(units: Seq<Seq<char>>) -> Seq<Seq<char>>
    decreases units.len(),
{
    if units.len() == 0 {
        seq![]
    } else {
        all_words(units.drop_last()) + words(units.last())
    }
}

pub proof fn lemma_all_words_push(units: Seq<Seq<char>>, u: Seq<char>)
    ensures
        all_words(units.push(u)) == all_words(units) + words(u),
{
    assert(units.push(u).drop_last() == units);
}

pub proof fn lemma_all_words_front(u: Seq<char>, rest: Seq<Seq<char>>)
    ensures
        all_words(seq![u] + rest) == words(u) + all_words(rest),
    decreases rest.len(),
{
    if rest.len() == 0 {
        assert(seq![u] + rest == seq![u]);
        assert(seq![u].drop_last() == Seq::<Seq<char>>::empty());
        assert(all_words(Seq::<Seq<char>>::empty()) == Seq::<Seq<char>>::empty());
        assert(all_words(rest) == Seq::<Seq<char>>::empty());
        assert(Seq::<Seq<char>>::empty() + words(u) == words(u));
        assert(words(u) + Seq::<Seq<char>>::empty() == words(u));
    } else {
        assert((seq![u] + rest).drop_last() == seq![u] + rest.drop_last());
        assert((seq![u] + rest).last() == rest.last());
        lemma_all_words_front(u, rest.drop_last());
        assert(words(u) + all_words(rest.drop_last()) + words(rest.last()) == words(u) + (
        all_words(rest.drop_last()) + words(rest.last())));
    }
}

/// A unit appended, after a space and trimmed, to the last unit adds its
/// words after the others.
pub proof fn lemma_all_words_append_last(units: Seq<Seq<char>>, u: Seq<char>)
    requires
        units.len() > 0,
    ensures
        all_words(units.update(units.len() - 1, spaced(units.last(), trim(u)))) == all_words(units)
            + words(u),
{
    let n = units.len() - 1;
    let m = units.update(n, spaced(units.last(), trim(u)));
    assert(m.drop_last() == units.drop_last());
    lemma_words_spaced(units.last(), trim(u));
    lemma_words_trim(u);
    assert(all_words(units.drop_last()) + (words(units.last()) + words(u)) == all_words(
        units.drop_last(),
    ) + words(units.last()) + words(u));
}

/// What folding tiny units leaves of the units read so far: every word, in
/// order; never more units; and, after the first, units of three words or
/// more.
pub proof fn lemma_merge_scan(units: Seq<Seq<char>>)
    ensures
        all_words(merge_scan(units)) == all_words(units),
        merge_scan(units).len() <= units.len(),
        units.len() > 0 ==> merge_scan(units).len() > 0,
        forall|i: int|
            1 <= i < merge_scan(units).len() ==> word_total(#[trigger] merge_scan(units)[i]) >= 3,
    decreases units.len(),
{
    if units.len() > 0 {
        let prev = merge_scan(units.drop_last());
        let u = units.last();
        lemma_merge_scan(units.drop_last());
        if word_total(u) < 3 && prev.len() > 0 {
            lemma_all_words_append_last(prev, u);
            let n = prev.len() - 1;
            lemma_words_spaced(prev.last(), trim(u));
            let m = prev.update(n, spaced(prev.last(), trim(u)));
            assert forall|i: int| 1 <= i < m.len() implies word_total(#[trigger] m[i]) >= 3 by {
                if i == n {
                    assert(word_total(m[i]) >= word_total(prev[i]));
                }
            }
        } else {
            lemma_all_words_push(prev, u);
            let m = prev.push(u);
            assert forall|i: int| 1 <= i < m.len() implies word_total(#[trigger] m[i]) >= 3 by {
                if i < prev.len() {
                    assert(m[i] == prev[i]);
                }
            }
        }
    }
}

/// Folding tiny units loses no word and repeats none: the words of the
/// folded units, one unit after another, are the words of the units.
pub proof fn law_merging_keeps_every_word(units: Seq<Seq<char>>)
    ensures
        all_words(merged_units(units)) == all_words(units),
{
    lemma_merge_scan(units);
    let m = merge_scan(units);
    let t = merge_tail(m);
    if m.len() > 1 && word_total(m.last()) < 3 {
        lemma_all_words_append_last(m.drop_last(), m.last());
        assert(m.drop_last().push(m.last()) == m);
        lemma_all_words_push(m.drop_last(), m.last());
    }
    assert(all_words(t) == all_words(units));
    if t.len() > 1 && word_total(t[0]) < 3 {
        let rest = t.drop_first();
        let x = spaced(trim(t[0]), trim(rest[0]));
        let r = rest.update(0, x);
        assert(r == seq![x] + rest.drop_first());
        assert(rest == seq![rest[0]] + rest.drop_first());
        assert(t == seq![t[0]] + rest);
        lemma_all_words_front(x, rest.drop_first());
        lemma_all_words_front(rest[0], rest.drop_first());
        lemma_all_words_front(t[0], rest);
        lemma_words_spaced(trim(t[0]), trim(rest[0]));
        lemma_words_trim(t[0]);
        lemma_words_trim(rest[0]);
        assert(words(t[0]) + words(rest[0]) + all_words(rest.drop_first()) == words(t[0]) + (
        words(rest[0]) + all_words(rest.drop_first())));
    }
}

/// Folding never adds units, keeps a unit whenever there was one, and, when
/// more than one unit is left, leaves none of fewer than three words.
pub proof fn law_merged_units_have_three_words(units: Seq<Seq<char>>)
    ensures
        merged_units(units).len() <= units.len(),
        units.len() > 0 ==> merged_units(units).len() > 0,
        merged_units(units).len() > 1 ==> forall|i: int|
            0 <= i < merged_units(units).len() ==> word_total(#[trigger] merged_units(units)[i])
                >= 3,
{
    lemma_merge_scan(units);
    let m = merge_scan(units);
    // After the scan the last of several units already has three words, so
    // the tail fold leaves it as it is.
    if m.len() > 1 {
        assert(word_total(m[m.len() - 1]) >= 3);
    }
    assert(merge_tail(m) == m);
    let r = merged_units(units);
    if m.len() > 1 && word_total(m[0]) < 3 {
        let rest = m.drop_first();
        let x = spaced(trim(m[0]), trim(rest[0]));
        lemma_words_spaced(trim(m[0]), trim(rest[0]));
        lemma_words_trim(rest[0]);
        assert(rest[0] == m[1]);
        assert(word_total(x) >= 3);
        assert forall|i: int| 0 <= i < r.len() implies word_total(#[trigger] r[i]) >= 3 by {
            if i > 0 {
                assert(r[i] == m[i + 1]);
            }
        }
    }
}

/// The window groups of a plan cover every window once, in order: the
/// first starts at the first window, each starts right after the one before
/// it ends, none is empty, and the last ends at the last window.
pub proof fn law_window_groups_cover_windows_in_order(count: nat, target: nat)
    requires
        count > 0,
    ensures
        window_groups(count, target).len() > 0,
        window_groups(count, target)[0].0 == 0,
        window_groups(count, target).last().1 == count - 1,
        forall|i: int|
            0 <= i < window_groups(count, target).len() ==> (#[trigger] window_groups(
                count,
                target,
            )[i]).0 <= window_groups(count, target)[i].1,
        forall|i: int|
            0 < i < window_groups(count, target).len() ==> (#[trigger] window_groups(
                count,
                target,
            )[i]).0 == window_groups(count, target)[i - 1].1 + 1,
{
    let g = window_groups(count, target);
    if target == 0 || count <= target {
    } else {
        let n = count as int;
        let t = target as int;
        assert(group_start(0, n, t) == 0);
        assert forall|i: int| 0 <= i < g.len() implies (#[trigger] g[i]).0 <= g[i].1 by {
            lemma_group_nonempty(i, n, t);
        }
        assert forall|i: int| 0 < i < g.len() implies (#[trigger] g[i]).0 == g[i - 1].1 + 1 by {
            assert(group_end(i - 1, n, t) == group_start(i, n, t));
        }
        assert(g.last() == g[t - 1]);
    }
}

pub open spec fn at_least_one(n: nat) -> nat {
    if n == 0 {
        1
    } else {
        n
    }
}

/// Chunks the text of a whole-file synthesis asks for: the clause units of
/// its first segment, or, with per-line settings, one per segment.
pub open spec fn preferred_chunks(
    has_line_overrides: bool,
    first_segment_text: Option<Seq<char>>,
    segment_count: nat,
) -> nat {
    if has_line_overrides {
        at_least_one(segment_count)
    } else {
        match first_segment_text {
            Some(t) => at_least_one(text_candidates(t, true).len()),
            None => 1,
        }
    }
}

/// Chunks of an alignment: what the text asks for, raised to what the
/// duration needs, at most one per speech window, and at least one when
/// there is a window.
pub open spec fn chunk_count(window_count: nat, minimum_chunks: nat, preferred: nat) -> nat {
    if window_count == 0 {
        0
    } else {
        let wanted = if preferred < minimum_chunks {
            minimum_chunks
        } else {
            preferred
        };
        at_least_one(if wanted < window_count { wanted } else { window_count })
    }
}

/// How many chunks a whole-file alignment cuts the line into, given the
/// number of speech windows and the least number of chunks their span needs.
pub fn alignment_chunk_count(
    window_count: usize,
    minimum_chunks: usize,
    has_line_overrides: bool,
    first_segment_text: Option<&str>,
    segment_count: usize,
) -> (r: usize)
    ensures
        r == chunk_count(
            window_count as nat,
            minimum_chunks as nat,
            preferred_chunks(
                has_line_overrides,
                match first_segment_text {
                    Some(t) => Some(t@),
                    None => None,
                },
                segment_count as nat,
            ),
        ),
        window_count > 0 ==> 1 <= r <= window_count,
{
    if window_count == 0 {
        return 0;
    }
    let preferred: usize = if has_line_overrides {
        if segment_count == 0 {
            1
        } else {
            segment_count
        }
    } else {
        match first_segment_text {
            Some(t) => {
                let units = split_text_candidates_with_soft_boundaries(t);
                if units.len() == 0 {
                    1
                } else {
                    units.len()
                }
            },
            None => 1,
        }
    };
    let wanted = if preferred < minimum_chunks {
        minimum_chunks
    } else {
        preferred
    };
    let capped = if wanted < window_count {
        wanted
    } else {
        window_count
    };
    if capped == 0 {
        1
    } else {
        capped
    }
}

/// Units joined by spaces hold the words of the units, one unit after
/// another.
pub proof fn lemma_words_of_join(units: Seq<Seq<char>>)
    ensures
        words(join(units, seq![' '])) == all_words(units),
    decreases units.len(),
{
    if units.len() == 0 {
        assert(words(Seq::<char>::empty()) == Seq::<Seq<char>>::empty());
    } else if units.len() == 1 {
        assert(units.drop_last() == Seq::<Seq<char>>::empty());
        assert(all_words(Seq::<Seq<char>>::empty()) == Seq::<Seq<char>>::empty());
        assert(Seq::<Seq<char>>::empty() + words(units[0]) == words(units[0]));
    } else {
        lemma_words_of_join(units.drop_last());
        lemma_words_spaced(join(units.drop_last(), seq![' ']), units.last());
    }
}

pub proof fn lemma_all_words_concat(a: Seq<Seq<char>>, b: Seq<Seq<char>>)
    ensures
        all_words(a + b) == all_words(a) + all_words(b),
    decreases b.len(),
{
    if b.len() == 0 {
        assert(a + b == a);
        assert(all_words(b) == Seq::<Seq<char>>::empty());
        assert(all_words(a) + Seq::<Seq<char>>::empty() == all_words(a));
    } else {
        assert((a + b).drop_last() == a + b.drop_last());
        assert((a + b).last() == b.last());
        lemma_all_words_concat(a, b.drop_last());
        assert(all_words(a) + all_words(b.drop_last()) + words(b.last()) == all_words(a) + (
        all_words(b.drop_last()) + words(b.last())));
    }
}

/// The words of the first `k` groups are the words of the units those
/// groups hold.
pub proof fn lemma_combined_words_prefix(units: Seq<Seq<char>>, target: nat, k: int)
    requires
        0 < target,
        0 <= k <= target,
    ensures
        all_words(combined(units, target).take(k)) == all_words(
            units.subrange(0, if k == 0 { 0 } else { group_end(k - 1, units.len() as int, target as int) }),
        ),
    decreases k,
{
    let n = units.len() as int;
    let t = target as int;
    let groups = combined(units, target);
    if k == 0 {
        assert(groups.take(0) == Seq::<Seq<char>>::empty());
        assert(units.subrange(0, 0) == Seq::<Seq<char>>::empty());
    } else {
        lemma_combined_words_prefix(units, target, k - 1);
        lemma_group_bounds(k - 1, n, t);
        let mid = group_start(k - 1, n, t);
        let end = group_end(k - 1, n, t);
        if k - 1 > 0 {
            assert(group_end(k - 2, n, t) == mid);
        } else {
            assert(mid == 0);
        }
        assert(groups.take(k).drop_last() == groups.take(k - 1));
        assert(groups.take(k).last() == groups[k - 1]);
        assert(groups[k - 1] == join(units.subrange(mid, end), seq![' ']));
        lemma_words_of_join(units.subrange(mid, end));
        lemma_all_words_concat(units.subrange(0, mid), units.subrange(mid, end));
        assert(units.subrange(0, mid) + units.subrange(mid, end) == units.subrange(0, end));
    }
}

/// Sharing units out in groups keeps every word, in order, whatever the
/// number of groups.
pub proof fn lemma_combined_keeps_words(units: Seq<Seq<char>>, target: nat)
    requires
        0 < target,
    ensures
        all_words(combined(units, target)) == all_words(units),
{
    lemma_combined_words_prefix(units, target, target as int);
    assert(combined(units, target).take(target as int) == combined(units, target));
    assert(units.subrange(0, units.len() as int) == units);
}

pub proof fn lemma_blanks_have_no_words(count: nat)
    ensures
        all_words(blanks(count)) == Seq::<Seq<char>>::empty(),
    decreases count,
{
    if count > 0 {
        lemma_blanks_have_no_words((count - 1) as nat);
        assert(blanks(count).drop_last() == blanks((count - 1) as nat));
        assert(words(Seq::<char>::empty()) == Seq::<Seq<char>>::empty());
    }
}

/// A sequence of words is its own words, one after another.
pub proof fn lemma_all_words_of_words(ws: Seq<Seq<char>>)
    requires
        forall|i: int| 0 <= i < ws.len() ==> is_word(#[trigger] ws[i]),
    ensures
        all_words(ws) == ws,
    decreases ws.len(),
{
    if ws.len() > 0 {
        lemma_all_words_of_words(ws.drop_last());
        assert(is_word(ws[ws.len() - 1]));
        lemma_word_is_single(ws.last());
        assert(ws.drop_last() + seq![ws.last()] == ws);
    }
}

/// Rebalancing keeps every word of the non-blank units, in order, unless
/// the text had to be cut at clause marks (a cut there can fall inside a
/// word, as in `tres.quatro`).
pub proof fn law_rebalance_keeps_every_word(units: Seq<Seq<char>>, target: nat)
    requires
        0 < target,
        !(0 < non_blank_units(units).len() < target && text_candidates(
            join(non_blank_units(units), seq![' ']),
            true,
        ).len() >= target),
    ensures
        all_words(rebalanced(units, target)) == all_words(non_blank_units(units)),
{
    let kept = non_blank_units(units);
    if kept.len() == 0 {
        lemma_blanks_have_no_words(target);
        assert(all_words(kept) == Seq::<Seq<char>>::empty());
    } else if kept.len() == target {
    } else if kept.len() > target {
        lemma_combined_keeps_words(kept, target);
    } else {
        let text = join(kept, seq![' ']);
        lemma_words_of_join(kept);
        if words(text).len() == 0 {
            lemma_blanks_have_no_words(target);
        } else {
            lemma_combined_keeps_words(words(text), target);
            lemma_words_are_words(text);
            lemma_all_words_of_words(words(text));
        }
    }
}

/// A sentence mark (`.`, `!`, `?`, `…`) or a line break closes the unit being
/// read, the mark kept at its end, and nothing is left open after it; with
/// clause marks asked for, `,`, `;` and `:` close it too. Any other
/// character joins the open unit.
pub proof fn law_marks_close_units(s: Seq<char>, soft: bool, c: char)
    ensures
        (c == '.' || c == '!' || c == '?' || c == '\u{2026}' || c == '\n' || (soft && (c == ','
            || c == ';' || c == ':'))) ==> boundary_scan(s.push(c), soft) == (
            add_candidate(boundary_scan(s, soft).0, boundary_scan(s, soft).1.push(c)),
            Seq::<char>::empty(),
        ),
        !(c == '.' || c == '!' || c == '?' || c == '\u{2026}' || c == '\n' || c == ',' || c == ';'
            || c == ':') ==> boundary_scan(s.push(c), soft) == (
            boundary_scan(s, soft).0,
            boundary_scan(s, soft).1.push(c),
        ),
{
    assert(s.push(c).drop_last() == s);
    assert(s.push(c).last() == c);
}

/// Units closed while reading a text stay as they are whatever text
/// follows.
pub proof fn lemma_closed_units_stay(a: Seq<char>, b: Seq<char>, soft: bool)
    ensures
        boundary_scan(a, soft).0.len() <= boundary_scan(a + b, soft).0.len(),
        boundary_scan(a + b, soft).0.take(boundary_scan(a, soft).0.len() as int) == boundary_scan(
            a,
            soft,
        ).0,
    decreases b.len(),
{
    if b.len() == 0 {
        assert(a + b == a);
        assert(boundary_scan(a, soft).0.take(boundary_scan(a, soft).0.len() as int) == boundary_scan(
            a,
            soft,
        ).0);
    } else {
        assert((a + b).drop_last() == a + b.drop_last());
        lemma_closed_units_stay(a, b.drop_last(), soft);
        let prev = boundary_scan(a + b.drop_last(), soft).0;
        let n = boundary_scan(a, soft).0.len() as int;
        let next = boundary_scan(a + b, soft).0;
        if next != prev {
            assert(next.take(n) == prev.take(n));
        }
    }
}

/// Text up to a sentence mark that holds something besides whitespace is
/// cut off as a unit of its own, ending in the mark, and stays so whatever
/// follows: in `A b c? D e f.` the question `A b c?` is one unit.
pub proof fn law_sentence_ends_at_its_mark(a: Seq<char>, mark: char, b: Seq<char>, soft: bool)
    requires
        mark == '.' || mark == '!' || mark == '?' || mark == '\u{2026}',
    ensures
        ({
            let open = boundary_scan(a, soft).1.push(mark);
            let closed = boundary_scan(a, soft).0.len();
            let later = boundary_scan(a.push(mark) + b, soft).0;
            &&& later.len() >= closed
            &&& later.take(closed as int) == boundary_scan(a, soft).0
            &&& collapse_spaces(open).len() > 0 ==> later.len() > closed && later[closed as int]
                == collapse_spaces(open)
        }),
{
    law_marks_close_units(a, soft, mark);
    lemma_closed_units_stay(a.push(mark), b, soft);
    let closed = boundary_scan(a, soft).0.len() as int;
    let here = boundary_scan(a.push(mark), soft).0;
    let later = boundary_scan(a.push(mark) + b, soft).0;
    assert(later.take(here.len() as int)[closed] == later[closed]) by {
        if collapse_spaces(boundary_scan(a, soft).1.push(mark)).len() > 0 {
            assert(here.len() == closed + 1);
        }
    }
    assert(later.take(closed) == later.take(here.len() as int).take(closed));
}

} // verus!

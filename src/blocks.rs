//! Regrouping of a multi-day table section into one block of lines per day,
//! with the positional one-line-per-day fallback.
use vstd::prelude::*;
use crate::text::{chars_of, is_junk, is_white, junk, trim_of, trim_str, white};

verus! {

/// The character views of a sequence of strings.
pub open spec fn views(lines: Seq<String>) -> Seq<Seq<char>> {
    lines.map_values(|l: String| l@)
}

/// A raw line whose first character is white space: it opens a new day
/// column.
pub open spec fn indented(raw: Seq<char>) -> bool {
    raw.len() > 0 && white(raw[0])
}

/// The blocks that the splitter has built after reading `lines`, at most `n`
/// of them opened by indentation.
pub open spec fn blocks_of(lines: Seq<Seq<char>>, n: nat) -> Seq<Seq<Seq<char>>>
    decreases lines.len(),
{
    if lines.len() == 0 {
        seq![]
    } else {
        let prev = blocks_of(lines.drop_last(), n);
        let raw = lines.last();
        let t = trim_of(raw);
        if junk(t) {
            prev
        } else if prev.len() == 0 || (indented(raw) && prev.len() < n) {
            prev.push(seq![t])
        } else {
            prev.update(prev.len() - 1, prev.last().push(t))
        }
    }
}

/// The trimmed content lines among `lines`, in order.
pub open spec fn content_lines(lines: Seq<Seq<char>>) -> Seq<Seq<char>>
    decreases lines.len(),
{
    if lines.len() == 0 {
        seq![]
    } else {
        let prev = content_lines(lines.drop_last());
        let t = trim_of(lines.last());
        if junk(t) {
            prev
        } else {
            prev.push(t)
        }
    }
}

/// The first `days` content lines: day `k` receives the `k`-th of them.
pub open spec fn first_lines(lines: Seq<Seq<char>>, days: nat) -> Seq<Seq<char>> {
    let c = content_lines(lines);
    if c.len() <= days {
        c
    } else {
        c.take(days as int)
    }
}

/// The lines of a block joined by newlines.
pub open spec fn join_lines(b: Seq<Seq<char>>) -> Seq<char>
    decreases b.len(),
{
    if b.len() == 0 {
        seq![]
    } else if b.len() == 1 {
        b[0]
    } else {
        join_lines(b.drop_last()) + seq!['\n'] + b.last()
    }
}

/// One text per day for a section of `n` days: the joined blocks when the
/// splitter found exactly `n`, else the positional fallback.
pub open spec fn day_texts(lines: Seq<Seq<char>>, n: nat) -> Seq<Seq<char>> {
    let b = blocks_of(lines, n);
    if b.len() == n {
        b.map_values(|blk: Seq<Seq<char>>| join_lines(blk))
    } else {
        first_lines(lines, n)
    }
}

fn starts_with_whitespace(s: &str) -> (r: bool)
    ensures
        r == indented(s@),
{
    let cs = chars_of(s);
    cs.len() > 0 && is_white(cs[0])
}

/// Splits the lines of a section into day blocks. A content line opens a new
/// block when it is indented (starts with white space), a block exists and fewer than `expected_blocks`
/// exist; otherwise it joins the last block. Junk lines are dropped and the
/// kept lines are trimmed.
pub fn split_blocks(lines: &[String], expected_blocks: usize) -> (r: Vec<Vec<String>>)
    ensures
        r.deep_view() == blocks_of(views(lines@), expected_blocks as nat),
{
    let mut blocks: Vec<Vec<String>> = Vec::new();
    let mut i: usize = 0;
    while i < lines.len()
        invariant
            i <= lines.len(),
            blocks.deep_view() == blocks_of(views(lines@.take(i as int)), expected_blocks as nat),
        decreases lines.len() - i,
    {
        let ghost pre = views(lines@.take(i as int));
        let ghost cur = views(lines@.take(i + 1));
        assert(cur.drop_last() =~= pre);
        assert(cur.last() == lines@[i as int]@);
        let raw = &lines[i];
        let trimmed = trim_str(raw.as_str());
        if !is_junk(trimmed) {
            let starts_new = starts_with_whitespace(raw.as_str()) && blocks.len() > 0
                && blocks.len() < expected_blocks;
            let t = String::from_str(trimmed);
            if starts_new || blocks.len() == 0 {
                let mut b: Vec<String> = Vec::new();
                b.push(t);
                assert(b.deep_view() =~= seq![trim_of(raw@)]);
                blocks.push(b);
                assert(blocks.deep_view() =~= blocks_of(pre, expected_blocks as nat).push(
                    seq![trim_of(raw@)],
                ));
            } else {
                let ghost old_view = blocks.deep_view();
                let mut b = blocks.pop().unwrap();
                assert(b.deep_view() == old_view.last());
                b.push(t);
                assert(b.deep_view() =~= old_view.last().push(trim_of(raw@)));
                blocks.push(b);
                assert(blocks.deep_view() =~= old_view.update(
                    old_view.len() - 1,
                    old_view.last().push(trim_of(raw@)),
                ));
            }
        }
        i += 1;
    }
    assert(lines@.take(lines.len() as int) =~= lines@);
    blocks
}

/// Positional fallback: day `k` receives the `k`-th content line (trimmed),
/// for the first `days` days that have one. Each line serves at most one day.
pub fn fill_first_line_per_day(lines: &[String], days: usize) -> (r: Vec<String>)
    ensures
        r.deep_view() == first_lines(views(lines@), days as nat),
{
    let mut out: Vec<String> = Vec::new();
    let mut i: usize = 0;
    while i < lines.len()
        invariant
            i <= lines.len(),
            out.deep_view() == first_lines(views(lines@.take(i as int)), days as nat),
        decreases lines.len() - i,
    {
        let ghost pre = views(lines@.take(i as int));
        let ghost cur = views(lines@.take(i + 1));
        assert(cur.drop_last() =~= pre);
        let raw = &lines[i];
        let trimmed = trim_str(raw.as_str());
        if !is_junk(trimmed) {
            let ghost c = content_lines(pre);
            if out.len() < days {
                assert(out.deep_view() == c) by {
                    if c.len() > days {
                        assert(out.deep_view().len() == days);
                    }
                }
                let t = String::from_str(trimmed);
                out.push(t);
                assert(out.deep_view() =~= c.push(trim_of(raw@)));
            } else {
                assert(c.push(trim_of(raw@)).take(days as int) =~= c.take(days as int));
            }
        }
        i += 1;
    }
    assert(lines@.take(lines.len() as int) =~= lines@);
    out
}

/// Joins the lines of a block with newlines.
pub fn join_block(block: &Vec<String>) -> (r: String)
    ensures
        r@ == join_lines(block.deep_view()),
{
    let mut res = String::new();
    let mut k: usize = 0;
    proof {
        reveal_strlit("\n");
    }
    while k < block.len()
        invariant
            k <= block.len(),
            res@ == join_lines(block.deep_view().take(k as int)),
        decreases block.len() - k,
    {
        let ghost pre = block.deep_view().take(k as int);
        let ghost cur = block.deep_view().take(k + 1);
        assert(cur.drop_last() =~= pre);
        proof {
            reveal_strlit("\n");
        }
        assert(cur.last() == block@[k as int]@);
        if k > 0 {
            res.append("\n");
        }
        res.append(block[k].as_str());
        assert(res@ =~= join_lines(cur));
        k += 1;
    }
    assert(block.deep_view().take(block.len() as int) =~= block.deep_view());
    res
}

/// One text per day for a section of `days` days: the joined day blocks when
/// exactly `days` of them are found, else one line per day by position.
pub fn section_day_texts(lines: &[String], days: usize) -> (r: Vec<String>)
    ensures
        r.deep_view() == day_texts(views(lines@), days as nat),
{
    let blocks = split_blocks(lines, days);
    if blocks.len() == days {
        let mut out: Vec<String> = Vec::new();
        let mut k: usize = 0;
        while k < blocks.len()
            invariant
                k <= blocks.len(),
                out.deep_view() =~= blocks.deep_view().take(k as int).map_values(
                    |blk: Seq<Seq<char>>| join_lines(blk),
                ),
            decreases blocks.len() - k,
        {
            let s = join_block(&blocks[k]);
            assert(blocks[k as int].deep_view() == blocks.deep_view()[k as int]);
            assert(blocks.deep_view().take(k + 1) =~= blocks.deep_view().take(k as int).push(
                blocks.deep_view()[k as int],
            ));
            let ghost old_out = out.deep_view();
            out.push(s);
            assert(out.deep_view() =~= old_out.push(s@));
            assert(blocks.deep_view().take(k + 1).map_values(
                |blk: Seq<Seq<char>>| join_lines(blk),
            ) =~= blocks.deep_view().take(k as int).map_values(
                |blk: Seq<Seq<char>>| join_lines(blk),
            ).push(join_lines(blocks.deep_view()[k as int])));
            k += 1;
        }
        assert(blocks.deep_view().take(blocks.len() as int) =~= blocks.deep_view());
        out
    } else {
        fill_first_line_per_day(lines, days)
    }
}

/// The lines of consecutive groups, in order.
pub open spec fn concat_groups(gs: Seq<Seq<Seq<char>>>) -> Seq<Seq<char>>
    decreases gs.len(),
{
    if gs.len() == 0 {
        seq![]
    } else {
        concat_groups(gs.drop_last()) + gs.last()
    }
}

pub open spec fn trim_all(g: Seq<Seq<char>>) -> Seq<Seq<char>> {
    g.map_values(|l: Seq<char>| trim_of(l))
}

/// Day groups as a table's text shows them: each group is one or more
/// content lines, each group after the first opens with an indented line, and
/// no other line is indented.
pub open spec fn indented_groups(gs: Seq<Seq<Seq<char>>>) -> bool {
    &&& forall|g: int| 0 <= g < gs.len() ==> (#[trigger] gs[g]).len() > 0
    &&& forall|g: int, j: int|
        0 <= g < gs.len() && 0 <= j < gs[g].len() ==> !junk(trim_of(#[trigger] gs[g][j]))
    &&& forall|g: int| 1 <= g < gs.len() ==> indented(#[trigger] gs[g][0])
    &&& forall|g: int, j: int|
        0 <= g < gs.len() && 1 <= j < gs[g].len() ==> !indented(#[trigger] gs[g][j])
}

proof fn lemma_extend_last(pre: Seq<Seq<char>>, e: Seq<Seq<char>>, n: nat)
    requires
        blocks_of(pre, n).len() > 0,
        forall|j: int| 0 <= j < e.len() ==> !junk(trim_of(#[trigger] e[j])) && !indented(e[j]),
    ensures
        blocks_of(pre + e, n) == blocks_of(pre, n).update(
            blocks_of(pre, n).len() - 1,
            blocks_of(pre, n).last() + trim_all(e),
        ),
    decreases e.len(),
{
    let b = blocks_of(pre, n);
    if e.len() == 0 {
        assert(pre + e =~= pre);
        assert(b.last() + trim_all(e) =~= b.last());
        assert(b.update(b.len() - 1, b.last()) =~= b);
    } else {
        lemma_extend_last(pre, e.drop_last(), n);
        assert((pre + e).drop_last() =~= pre + e.drop_last());
        assert((pre + e).last() == e.last());
        assert(!junk(trim_of(e[e.len() - 1])));
        assert((b.last() + trim_all(e.drop_last())).push(trim_of(e.last())) =~= b.last()
            + trim_all(e));
        assert(blocks_of(pre + e, n) =~= b.update(b.len() - 1, b.last() + trim_all(e)));
    }
}

proof fn lemma_new_group(pre: Seq<Seq<char>>, g: Seq<Seq<char>>, n: nat)
    requires
        g.len() > 0,
        forall|j: int| 0 <= j < g.len() ==> !junk(trim_of(#[trigger] g[j])),
        forall|j: int| 1 <= j < g.len() ==> !indented(#[trigger] g[j]),
        blocks_of(pre, n).len() == 0 || (indented(g[0]) && blocks_of(pre, n).len() < n),
    ensures
        blocks_of(pre + g, n) == blocks_of(pre, n).push(trim_all(g)),
{
    let b = blocks_of(pre, n);
    let first = pre.push(g[0]);
    assert(first.drop_last() =~= pre);
    assert(!junk(trim_of(g[0])));
    assert(blocks_of(first, n) == b.push(seq![trim_of(g[0])]));
    let rest = g.drop_first();
    assert forall|j: int| 0 <= j < rest.len() implies !junk(trim_of(#[trigger] rest[j]))
        && !indented(rest[j]) by {
        assert(rest[j] == g[j + 1]);
    }
    lemma_extend_last(first, rest, n);
    assert(first + rest =~= pre + g);
    assert(seq![trim_of(g[0])] + trim_all(rest) =~= trim_all(g));
    assert(b.push(seq![trim_of(g[0])]).update(b.len() as int, seq![trim_of(g[0])] + trim_all(rest))
        =~= b.push(trim_all(g)));
}

/// The content (non-junk) lines among `lines`, untrimmed, in order.
pub open spec fn content_raw(lines: Seq<Seq<char>>) -> Seq<Seq<char>>
    decreases lines.len(),
{
    if lines.len() == 0 {
        seq![]
    } else {
        let prev = content_raw(lines.drop_last());
        if junk(trim_of(lines.last())) {
            prev
        } else {
            prev.push(lines.last())
        }
    }
}

/// Junk lines play no part in the splitting.
pub proof fn lemma_blocks_skip_junk(lines: Seq<Seq<char>>, n: nat)
    ensures
        blocks_of(lines, n) == blocks_of(content_raw(lines), n),
    decreases lines.len(),
{
    if lines.len() > 0 {
        lemma_blocks_skip_junk(lines.drop_last(), n);
        let c = content_raw(lines.drop_last());
        if !junk(trim_of(lines.last())) {
            assert(c.push(lines.last()).drop_last() =~= c);
        }
    }
}

/// Lines whose content lines are laid out as exactly `n` indented day groups
/// (junk lines may stand anywhere among them) split back into those `n`
/// groups, each keeping its lines in their original order (trimmed).
pub proof fn lemma_split_blocks_recovers_groups(
    lines: Seq<Seq<char>>,
    gs: Seq<Seq<Seq<char>>>,
    n: nat,
)
    requires
        gs.len() == n,
        indented_groups(gs),
        content_raw(lines) == concat_groups(gs),
    ensures
        blocks_of(lines, n) == gs.map_values(|g: Seq<Seq<char>>| trim_all(g)),
{
    lemma_blocks_skip_junk(lines, n);
    lemma_groups_prefix(gs, n, n as int);
    assert(gs.take(n as int) =~= gs);
}

proof fn lemma_groups_prefix(gs: Seq<Seq<Seq<char>>>, n: nat, k: int)
    requires
        gs.len() == n,
        indented_groups(gs),
        0 <= k <= n,
    ensures
        blocks_of(concat_groups(gs.take(k)), n) == gs.take(k).map_values(
            |g: Seq<Seq<char>>| trim_all(g),
        ),
    decreases k,
{
    if k == 0 {
        assert(gs.take(0) =~= Seq::<Seq<Seq<char>>>::empty());
        assert(gs.take(0).map_values(|g: Seq<Seq<char>>| trim_all(g)) =~= Seq::<
            Seq<Seq<char>>,
        >::empty());
    } else {
        lemma_groups_prefix(gs, n, k - 1);
        let pre = concat_groups(gs.take(k - 1));
        let g = gs[k - 1];
        assert(gs.take(k).drop_last() =~= gs.take(k - 1));
        assert(concat_groups(gs.take(k)) == pre + g);
        assert forall|j: int| 0 <= j < g.len() implies !junk(trim_of(#[trigger] g[j])) by {
            assert(!junk(trim_of(gs[k - 1][j])));
        }
        assert forall|j: int| 1 <= j < g.len() implies !indented(#[trigger] g[j]) by {
            assert(!indented(gs[k - 1][j]));
        }
        if k > 1 {
            assert(indented(gs[k - 1][0]));
        }
        assert(gs[k - 1].len() > 0);
        lemma_new_group(pre, g, n);
        assert(gs.take(k).map_values(|g: Seq<Seq<char>>| trim_all(g)) =~= gs.take(k - 1).map_values(
            |g: Seq<Seq<char>>| trim_all(g),
        ).push(trim_all(g)));
    }
}

/// Positions in `lines` of the content lines, in order.
pub open spec fn content_positions(lines: Seq<Seq<char>>) -> Seq<int>
    decreases lines.len(),
{
    if lines.len() == 0 {
        seq![]
    } else {
        let prev = content_positions(lines.drop_last());
        if junk(trim_of(lines.last())) {
            prev
        } else {
            prev.push(lines.len() - 1)
        }
    }
}

proof fn lemma_content_positions(lines: Seq<Seq<char>>)
    ensures
        content_positions(lines).len() == content_lines(lines).len(),
        forall|k: int|
            0 <= k < content_positions(lines).len() ==> 0 <= #[trigger] content_positions(lines)[k]
                < lines.len() && content_lines(lines)[k] == trim_of(
                lines[content_positions(lines)[k]],
            ),
        forall|a: int, b: int|
            0 <= a < b < content_positions(lines).len() ==> #[trigger] content_positions(lines)[a]
                < #[trigger] content_positions(lines)[b],
    decreases lines.len(),
{
    if lines.len() > 0 {
        let pre = lines.drop_last();
        lemma_content_positions(pre);
        assert forall|k: int| 0 <= k < content_positions(pre).len() implies lines[content_positions(
            pre,
        )[k]] == pre[content_positions(pre)[k]] by {}
    }
}

/// Day `k` holds the trimmed line at position `pos[k]` of `lines`, and the
/// positions strictly increase.
pub open spec fn taken_at(lines: Seq<Seq<char>>, r: Seq<Seq<char>>, pos: Seq<int>) -> bool {
    &&& pos.len() == r.len()
    &&& forall|k: int|
        0 <= k < pos.len() ==> 0 <= #[trigger] pos[k] < lines.len() && r[k] == trim_of(
            lines[pos[k]],
        )
    &&& forall|a: int, b: int| 0 <= a < b < pos.len() ==> #[trigger] pos[a] < #[trigger] pos[b]
}

/// The fallback gives each day at most one line, uses each line for at most
/// one day (lines are taken at strictly increasing positions), and fills at
/// most `days` days.
pub proof fn lemma_fill_first_line_per_day(lines: Seq<Seq<char>>, days: nat)
    ensures
        first_lines(lines, days).len() <= days,
        exists|pos: Seq<int>| #[trigger] taken_at(lines, first_lines(lines, days), pos),
{
    lemma_content_positions(lines);
    let c = content_positions(lines);
    let pos = if c.len() <= days {
        c
    } else {
        c.take(days as int)
    };
    assert(pos.len() == first_lines(lines, days).len());
    assert(forall|k: int| 0 <= k < pos.len() ==> pos[k] == c[k]);
    assert(taken_at(lines, first_lines(lines, days), pos));
}

/// When the splitter does not find exactly `n` blocks, each day's text is
/// one content line of the section, taken by position.
pub proof fn lemma_fallback_single_lines(lines: Seq<Seq<char>>, n: nat)
    requires
        blocks_of(lines, n).len() != n,
    ensures
        day_texts(lines, n) == first_lines(lines, n),
        forall|k: int|
            0 <= k < day_texts(lines, n).len() ==> exists|i: int|
                0 <= i < lines.len() && #[trigger] day_texts(lines, n)[k] == trim_of(lines[i]),
{
    lemma_content_positions(lines);
    let c = content_positions(lines);
    assert forall|k: int| 0 <= k < day_texts(lines, n).len() implies exists|i: int|
        0 <= i < lines.len() && #[trigger] day_texts(lines, n)[k] == trim_of(lines[i]) by {
        assert(day_texts(lines, n)[k] == content_lines(lines)[k]);
        assert(0 <= c[k] < lines.len());
    }
}

} // verus!

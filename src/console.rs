//! Splitting console output into chunks that fit a message.
use vstd::prelude::*;

verus! {

/// The most characters that one console message may hold.
pub const CONSOLE_MESSAGE_LIMIT: usize = 2000;

/// The last index in `[lo, end)` that holds a newline.
pub open spec fn last_newline(s: Seq<char>, lo: int, end: int) -> Option<int>
    decreases end - lo,
{
    if end <= lo {
        None
    } else if s[end - 1] == '\n' {
        Some(end - 1)
    } else {
        last_newline(s, lo, end - 1)
    }
}

/// The newline found is in range, and no later one is before `end`.
pub proof fn lemma_last_newline(s: Seq<char>, lo: int, end: int)
    ensures
        match last_newline(s, lo, end) {
            Some(i) => lo <= i < end && s[i] == '\n' && forall|j: int|
                i < j < end ==> s[j] != '\n',
            None => forall|j: int| lo <= j < end ==> s[j] != '\n',
        },
    decreases end - lo,
{
    if end > lo && s[end - 1] != '\n' {
        lemma_last_newline(s, lo, end - 1);
    }
}

/// Where the chunk that starts at `start` ends when more than `limit`
/// characters are left: before the last newline within the limit that is not
/// the chunk's first character, else at the limit.
pub open spec fn chunk_end(s: Seq<char>, limit: int, start: int) -> int {
    match last_newline(s, start + 1, start + limit) {
        Some(i) => i,
        None => start + limit,
    }
}

/// The chunks of `s` from `start` on, as ranges: each at most `limit` long and
/// not empty, in order, together covering the rest of `s`.
pub open spec fn chunks_from(s: Seq<char>, limit: int, start: int) -> Seq<(int, int)>
    decreases s.len() - start,
{
    if limit < 1 || start < 0 || start >= s.len() {
        Seq::empty()
    } else if s.len() - start <= limit {
        seq![(start, s.len() as int)]
    } else {
        proof {
            lemma_last_newline(s, start + 1, start + limit);
        }
        seq![(start, chunk_end(s, limit, start))] + chunks_from(s, limit, chunk_end(s, limit, start))
    }
}

pub open spec fn range_int(p: (usize, usize)) -> (int, int) {
    (p.0 as int, p.1 as int)
}

/// Where the next chunk ends, for more than `limit` characters left.
fn next_chunk_end(s: &[char], limit: usize, start: usize) -> (r: usize)
    requires
        1 <= limit,
        start + limit < s.len(),
    ensures
        r as int == chunk_end(s@, limit as int, start as int),
        start < r <= start + limit,
{
    let mut end = start + limit;
    while end > start + 1
        invariant
            start + 1 <= end <= start + limit,
            start + limit < s@.len(),
            last_newline(s@, start + 1, start + limit) == last_newline(s@, start + 1, end as int),
        decreases end,
    {
        if s[end - 1] == '\n' {
            return end - 1;
        }
        end -= 1;
    }
    start + limit
}

/// Splits console output into message-sized chunks, as ranges of `s`.
pub fn console_chunks(s: &[char], limit: usize) -> (r: Vec<(usize, usize)>)
    requires
        1 <= limit,
    ensures
        r@.map_values(|p: (usize, usize)| range_int(p)) == chunks_from(s@, limit as int, 0),
{
    let mut out: Vec<(usize, usize)> = Vec::new();
    let mut start: usize = 0;
    while start < s.len() && s.len() - start > limit
        invariant
            1 <= limit,
            start <= s@.len(),
            out@.map_values(|p: (usize, usize)| range_int(p)) + chunks_from(
                s@,
                limit as int,
                start as int,
            ) == chunks_from(s@, limit as int, 0),
        decreases s@.len() - start,
    {
        let end = next_chunk_end(s, limit, start);
        let ghost before = out@.map_values(|p: (usize, usize)| range_int(p));
        out.push((start, end));
        assert(out@.map_values(|p: (usize, usize)| range_int(p)) =~= before + seq![
            (start as int, end as int),
        ]);
        start = end;
    }
    if start < s.len() {
        let ghost before = out@.map_values(|p: (usize, usize)| range_int(p));
        out.push((start, s.len()));
        assert(out@.map_values(|p: (usize, usize)| range_int(p)) =~= before + seq![
            (start as int, s@.len() as int),
        ]);
    } else {
        assert(out@.map_values(|p: (usize, usize)| range_int(p)) =~= out@.map_values(
            |p: (usize, usize)| range_int(p),
        ) + chunks_from(s@, limit as int, start as int));
    }
    out
}

/// The chunks tile the text from `start` on: the first begins at `start`,
/// each ends where the next begins, the last ends at the end of `s`, and each
/// holds from one to `limit` characters.
pub proof fn lemma_chunks_tile(s: Seq<char>, limit: int, start: int)
    requires
        1 <= limit,
        0 <= start < s.len(),
    ensures
        ({
            let c = chunks_from(s, limit, start);
            &&& c.len() >= 1
            &&& c[0].0 == start
            &&& c[c.len() - 1].1 == s.len()
            &&& forall|k: int| 0 <= k < c.len() ==> c[k].0 < #[trigger] c[k].1 <= c[k].0 + limit
            &&& forall|k: int| 0 <= k < c.len() - 1 ==> #[trigger] c[k].1 == c[k + 1].0
        }),
    decreases s.len() - start,
{
    if s.len() - start > limit {
        lemma_last_newline(s, start + 1, start + limit);
        let e = chunk_end(s, limit, start);
        lemma_chunks_tile(s, limit, e);
        let rest = chunks_from(s, limit, e);
        let c = chunks_from(s, limit, start);
        assert(c == seq![(start, e)] + rest);
        assert forall|k: int| 0 <= k < c.len() implies c[k].0 < #[trigger] c[k].1 <= c[k].0 + limit by {
            if k > 0 {
                assert(c[k] == rest[k - 1]);
            }
        }
        assert forall|k: int| 0 <= k < c.len() - 1 implies #[trigger] c[k].1 == c[k + 1].0 by {
            if k > 0 {
                assert(c[k] == rest[k - 1]);
                assert(c[k + 1] == rest[k]);
            }
        }
    }
}

} // verus!

//! Rebuilding content around its matches.
//!
//! Given where the matches lie and what each is to become, the output is the
//! content with the first so many matches cut out and their replacements put
//! in, everything else copied as it stands.

use crate::engine::texts_of;
use crate::engine::well_placed;
use std::borrow::Cow;
use vstd::prelude::*;

verus! {

/// What the matches become: one text for all of them, or a text for each.
pub enum Substitute<'a> {
    /// Every match becomes these bytes.
    Verbatim(&'a [u8]),
    /// The match at index `i` becomes the buffer at index `i`.
    PerMatch(&'a Vec<Vec<u8>>),
}

impl<'a> Substitute<'a> {
    /// Whether there is a text for each of `count` matches.
    pub open spec fn covers(self, count: int) -> bool {
        match self {
            Substitute::Verbatim(_) => true,
            Substitute::PerMatch(texts) => texts@.len() == count,
        }
    }

    /// The text of each of `count` matches.
    pub open spec fn texts(self, count: int) -> Seq<Seq<u8>> {
        match self {
            Substitute::Verbatim(text) => same_text(text@, count),
            Substitute::PerMatch(texts) => texts_of(texts@),
        }
    }
}

/// One text, `count` times over.
pub open spec fn same_text(text: Seq<u8>, count: int) -> Seq<Seq<u8>> {
    Seq::new(count as nat, |i: int| text)
}

/// How many matches are replaced: all `total` of them when `limit` is zero,
/// else the first `limit`, or all if there are fewer.
pub open spec fn applied_count(total: int, limit: int) -> int {
    if limit == 0 || limit > total {
        total
    } else {
        limit
    }
}

/// The output from the match at index `k` on, when everything before
/// `cursor` has been dealt with: what lies between `cursor` and the match,
/// then the match's text between `prefix` and `suffix`, and so on through the
/// match at index `count - 1`; after that the rest of the content.
pub open spec fn stitched(
    content: Seq<u8>,
    spans: Seq<(usize, usize)>,
    texts: Seq<Seq<u8>>,
    prefix: Seq<u8>,
    suffix: Seq<u8>,
    count: int,
    k: int,
    cursor: int,
) -> Seq<u8>
    decreases count - k,
{
    if k >= count {
        content.subrange(cursor, content.len() as int)
    } else {
        content.subrange(cursor, spans[k].0 as int) + prefix + texts[k] + suffix + stitched(
            content,
            spans,
            texts,
            prefix,
            suffix,
            count,
            k + 1,
            spans[k].1 as int,
        )
    }
}

/// The content with its first `applied_count` matches replaced.
pub open spec fn rendered(
    content: Seq<u8>,
    spans: Seq<(usize, usize)>,
    texts: Seq<Seq<u8>>,
    limit: int,
    prefix: Seq<u8>,
    suffix: Seq<u8>,
) -> Seq<u8> {
    stitched(
        content,
        spans,
        texts,
        prefix,
        suffix,
        applied_count(spans.len() as int, limit),
        0,
        0,
    )
}

/// Content without a match comes out as it went in, whatever the limit and
/// the markers.
pub proof fn lemma_no_match_unchanged(
    content: Seq<u8>,
    texts: Seq<Seq<u8>>,
    limit: int,
    prefix: Seq<u8>,
    suffix: Seq<u8>,
)
    ensures
        rendered(content, Seq::empty(), texts, limit, prefix, suffix) == content,
{
    assert(content.subrange(0, content.len() as int) =~= content);
}

/// Without a limit every match is replaced.
pub proof fn lemma_no_limit_replaces_all(
    content: Seq<u8>,
    spans: Seq<(usize, usize)>,
    texts: Seq<Seq<u8>>,
    prefix: Seq<u8>,
    suffix: Seq<u8>,
)
    ensures
        applied_count(spans.len() as int, 0) == spans.len(),
        rendered(content, spans, texts, 0, prefix, suffix) == stitched(
            content,
            spans,
            texts,
            prefix,
            suffix,
            spans.len() as int,
            0,
            0,
        ),
{
}

/// The output reads only the matches that are replaced: the first `count`
/// spans and texts.
pub proof fn lemma_stitched_reads_prefix(
    content: Seq<u8>,
    spans: Seq<(usize, usize)>,
    texts: Seq<Seq<u8>>,
    prefix: Seq<u8>,
    suffix: Seq<u8>,
    count: int,
    k: int,
    cursor: int,
)
    requires
        0 <= k <= count <= spans.len(),
        count <= texts.len(),
    ensures
        stitched(content, spans, texts, prefix, suffix, count, k, cursor) == stitched(
            content,
            spans.take(count),
            texts.take(count),
            prefix,
            suffix,
            count,
            k,
            cursor,
        ),
    decreases count - k,
{
    if k < count {
        lemma_stitched_reads_prefix(
            content,
            spans,
            texts,
            prefix,
            suffix,
            count,
            k + 1,
            spans[k].1 as int,
        );
    }
}

/// From the match at index `k` on, the output ends with the content that
/// follows the last replaced match, copied as it stands.
pub proof fn lemma_stitched_keeps_tail(
    content: Seq<u8>,
    spans: Seq<(usize, usize)>,
    texts: Seq<Seq<u8>>,
    prefix: Seq<u8>,
    suffix: Seq<u8>,
    count: int,
    k: int,
    cursor: int,
)
    requires
        well_placed(spans, content.len() as int),
        0 <= k < count <= spans.len(),
        count <= texts.len(),
    ensures
        ({
            let out = stitched(content, spans, texts, prefix, suffix, count, k, cursor);
            let tail = content.subrange(spans[count - 1].1 as int, content.len() as int);
            tail.len() <= out.len() && out.skip(out.len() - tail.len()) == tail
        }),
    decreases count - k,
{
    let out = stitched(content, spans, texts, prefix, suffix, count, k, cursor);
    let rest = stitched(content, spans, texts, prefix, suffix, count, k + 1, spans[k].1 as int);
    let tail = content.subrange(spans[count - 1].1 as int, content.len() as int);
    assert(spans[count - 1].0 <= spans[count - 1].1 <= content.len());
    if k + 1 < count {
        lemma_stitched_keeps_tail(
            content,
            spans,
            texts,
            prefix,
            suffix,
            count,
            k + 1,
            spans[k].1 as int,
        );
    }
    assert(out.skip(out.len() - tail.len()) =~= rest.skip(rest.len() - tail.len()));
}

/// With a limit above zero, the matches that are replaced are the first
/// `limit`, or all of them if there are fewer. The output is what replacing
/// every one of those matches, and no other, gives. It starts with the
/// content before the first match and ends with the content after the last
/// replaced match, later matches included, both copied as they stand.
pub proof fn lemma_limit_replaces_leftmost(
    content: Seq<u8>,
    spans: Seq<(usize, usize)>,
    texts: Seq<Seq<u8>>,
    limit: int,
    prefix: Seq<u8>,
    suffix: Seq<u8>,
)
    requires
        well_placed(spans, content.len() as int),
        texts.len() == spans.len(),
        limit > 0,
    ensures
        ({
            let count = applied_count(spans.len() as int, limit);
            let out = rendered(content, spans, texts, limit, prefix, suffix);
            &&& count == if limit < spans.len() {
                limit
            } else {
                spans.len() as int
            }
            &&& out == rendered(content, spans.take(count), texts.take(count), 0, prefix, suffix)
            &&& count > 0 ==> {
                let head = content.subrange(0, spans[0].0 as int);
                let tail = content.subrange(spans[count - 1].1 as int, content.len() as int);
                &&& head.is_prefix_of(out)
                &&& tail.len() <= out.len()
                &&& out.skip(out.len() - tail.len()) == tail
            }
        }),
{
    let count = applied_count(spans.len() as int, limit);
    lemma_stitched_reads_prefix(content, spans, texts, prefix, suffix, count, 0, 0);
    if count > 0 {
        lemma_stitched_keeps_tail(content, spans, texts, prefix, suffix, count, 0, 0);
        let out = rendered(content, spans, texts, limit, prefix, suffix);
        let head = content.subrange(0, spans[0].0 as int);
        assert(spans[0].0 <= spans[0].1 <= content.len());
        assert(out.subrange(0, head.len() as int) =~= head);
    }
}

/// Appends a slice to a buffer.
pub fn append_bytes(dst: &mut Vec<u8>, src: &[u8])
    ensures
        final(dst)@ == old(dst)@ + src@,
{
    dst.extend_from_slice(src);
    assert(dst@ =~= old(dst)@ + src@);
}

/// Whether spans lie inside a text of `len` bytes, in order and without
/// overlap.
pub fn spans_well_placed(spans: &Vec<(usize, usize)>, len: usize) -> (ok: bool)
    ensures
        ok == well_placed(spans@, len as int),
{
    let mut last: usize = 0;
    let mut i: usize = 0;
    while i < spans.len()
        invariant
            i <= spans.len(),
            well_placed(spans@.take(i as int), len as int),
            i == 0 ==> last == 0,
            i > 0 ==> last == spans@[i - 1].1,
        decreases spans.len() - i,
    {
        let (start, end) = spans[i];
        if start < last || end < start || len < end {
            proof {
                if well_placed(spans@, len as int) {
                    if i > 0 {
                        assert(spans@[i - 1].1 <= spans@[i as int].0);
                    }
                    assert(spans@[i as int].0 <= spans@[i as int].1 <= len);
                }
            }
            return false;
        }
        proof {
            let before = spans@.take(i as int);
            let now = spans@.take(i + 1);
            assert forall|a: int, b: int| 0 <= a < b < now.len() implies (#[trigger] now[a]).1 <= (
            #[trigger] now[b]).0 by {
                if b < i {
                    assert(before[a].1 <= before[b].0);
                } else if a < i - 1 {
                    assert(before[a].1 <= before[i - 1].0);
                    assert(before[i - 1].0 <= before[i - 1].1);
                }
            }
            assert forall|a: int| 0 <= a < now.len() implies (#[trigger] now[a]).0 <= now[a].1
                <= len by {
                if a < i {
                    assert(before[a].0 <= before[a].1);
                }
            }
        }
        last = end;
        i += 1;
    }
    assert(spans@.take(i as int) =~= spans@);
    true
}

/// Replaces the first matches of `haystack`, up to `limit` of them (all of
/// them when `limit` is zero), and puts `prefix` and `suffix` around each
/// replacement. Without any match the haystack itself is handed back.
pub fn splice<'h>(
    haystack: &'h [u8],
    spans: &Vec<(usize, usize)>,
    texts: Substitute<'_>,
    limit: usize,
    prefix: &[u8],
    suffix: &[u8],
) -> (out: Cow<'h, [u8]>)
    requires
        well_placed(spans@, haystack@.len() as int),
        texts.covers(spans@.len() as int),
    ensures
        out@ == rendered(
            haystack@,
            spans@,
            texts.texts(spans@.len() as int),
            limit as int,
            prefix@,
            suffix@,
        ),
        spans@.len() == 0 <==> out is Borrowed,
        spans@.len() == 0 ==> out@ == haystack@,
{
    let total = spans.len();
    if total == 0 {
        assert(haystack@.subrange(0, haystack@.len() as int) =~= haystack@);
        return Cow::Borrowed(haystack);
    }
    let count = if limit == 0 || limit > total {
        total
    } else {
        limit
    };
    let ghost all = texts.texts(total as int);
    let ghost whole = stitched(haystack@, spans@, all, prefix@, suffix@, count as int, 0, 0);
    let mut new: Vec<u8> = Vec::with_capacity(haystack.len());
    let mut last_match: usize = 0;
    let mut i: usize = 0;
    while i < count
        invariant
            i <= count <= total,
            total == spans@.len(),
            well_placed(spans@, haystack@.len() as int),
            texts.covers(total as int),
            all == texts.texts(total as int),
            last_match <= haystack@.len(),
            i == 0 ==> last_match == 0,
            i > 0 ==> last_match == spans@[i - 1].1,
            whole == new@ + stitched(
                haystack@,
                spans@,
                all,
                prefix@,
                suffix@,
                count as int,
                i as int,
                last_match as int,
            ),
        decreases count - i,
    {
        let (start, end) = spans[i];
        proof {
            assert(spans@[i as int].0 <= spans@[i as int].1 <= haystack@.len());
            if i > 0 {
                assert(spans@[i - 1].1 <= spans@[i as int].0);
            }
        }
        let ghost before = new@;
        append_bytes(&mut new, &haystack[last_match..start]);
        append_bytes(&mut new, prefix);
        match texts {
            Substitute::Verbatim(text) => {
                append_bytes(&mut new, text);
            },
            Substitute::PerMatch(each) => {
                append_bytes(&mut new, each[i].as_slice());
            },
        }
        append_bytes(&mut new, suffix);
        proof {
            let rest = stitched(
                haystack@,
                spans@,
                all,
                prefix@,
                suffix@,
                count as int,
                i + 1,
                end as int,
            );
            assert(new@ == before + haystack@.subrange(last_match as int, start as int) + prefix@
                + all[i as int] + suffix@);
            assert(whole =~= new@ + rest);
        }
        last_match = end;
        i += 1;
    }
    append_bytes(&mut new, &haystack[last_match..haystack.len()]);
    Cow::Owned(new)
}

} // verus!

//! Taking the highlight markers out of a preview again.

use crate::engine::well_placed;
use crate::highlight::end_marker;
use crate::highlight::start_marker;
use crate::splice::applied_count;
use crate::splice::rendered;
use crate::splice::stitched;
use vstd::prelude::*;

verus! {

/// The escape byte, with which both markers start and which neither holds
/// anywhere else.
pub const ESCAPE: u8 = 0x1b;

/// Whether `marker` stands in `text` at offset `i`.
pub open spec fn occurs_at(marker: Seq<u8>, text: Seq<u8>, i: int) -> bool {
    &&& 0 <= i
    &&& i + marker.len() <= text.len()
    &&& text.subrange(i, i + marker.len()) == marker
}

/// Whether one of the two highlight markers stands in `text` at offset `i`.
pub open spec fn marker_at(text: Seq<u8>, i: int) -> bool {
    occurs_at(start_marker(), text, i) || occurs_at(end_marker(), text, i)
}

/// Whether neither highlight marker occurs anywhere in a text.
pub open spec fn marker_free(text: Seq<u8>) -> bool {
    forall|i: int| 0 <= i < text.len() ==> !#[trigger] marker_at(text, i)
}

/// The text with every highlight marker taken out, read from left to right:
/// where a marker starts it is skipped, any other byte is kept.
pub open spec fn stripped(text: Seq<u8>) -> Seq<u8>
    decreases text.len(),
{
    if text.len() == 0 {
        text
    } else if occurs_at(start_marker(), text, 0) {
        stripped(text.skip(start_marker().len() as int))
    } else if occurs_at(end_marker(), text, 0) {
        stripped(text.skip(end_marker().len() as int))
    } else {
        seq![text[0]] + stripped(text.skip(1))
    }
}

/// Whether a text is empty or starts with the escape byte.
pub open spec fn opens_with_escape(text: Seq<u8>) -> bool {
    text.len() == 0 || text[0] == ESCAPE
}

/// A marker that stands in a part of a text stands in the text.
pub proof fn lemma_marker_free_part(text: Seq<u8>, from: int, to: int)
    requires
        marker_free(text),
        0 <= from <= to <= text.len(),
    ensures
        marker_free(text.subrange(from, to)),
{
    let part = text.subrange(from, to);
    assert forall|i: int| 0 <= i < part.len() implies !#[trigger] marker_at(part, i) by {
        if occurs_at(start_marker(), part, i) {
            assert(text.subrange(from + i, from + i + start_marker().len()) =~= part.subrange(
                i,
                i + start_marker().len(),
            ));
            assert(marker_at(text, from + i));
        }
        if occurs_at(end_marker(), part, i) {
            assert(text.subrange(from + i, from + i + end_marker().len()) =~= part.subrange(
                i,
                i + end_marker().len(),
            ));
            assert(marker_at(text, from + i));
        }
    }
}

/// No marker stands at the head of a stretch that holds none, whatever
/// follows: a marker that started in the stretch and ran past its end would
/// hold the escape byte that opens what follows, and a marker holds that
/// byte only at its start.
proof fn lemma_no_marker_at_head(plain: Seq<u8>, rest: Seq<u8>)
    requires
        marker_free(plain),
        plain.len() > 0,
        opens_with_escape(rest),
    ensures
        !occurs_at(start_marker(), plain + rest, 0),
        !occurs_at(end_marker(), plain + rest, 0),
{
    let text = plain + rest;
    let n = plain.len() as int;
    if occurs_at(start_marker(), text, 0) {
        let m = start_marker();
        let found = text.subrange(0, m.len() as int);
        if m.len() <= n {
            assert(plain.subrange(0, m.len() as int) =~= found);
            assert(marker_at(plain, 0));
        } else {
            assert(found[n] == text[n]);
            assert(text[n] == rest[0]);
            assert(m[n] != ESCAPE);
        }
    }
    if occurs_at(end_marker(), text, 0) {
        let m = end_marker();
        let found = text.subrange(0, m.len() as int);
        if m.len() <= n {
            assert(plain.subrange(0, m.len() as int) =~= found);
            assert(marker_at(plain, 0));
        } else {
            assert(found[n] == text[n]);
            assert(text[n] == rest[0]);
            assert(m[n] != ESCAPE);
        }
    }
}

/// A stretch without a marker passes through unchanged, where what follows
/// is nothing or starts with the escape byte.
pub proof fn lemma_stripped_plain(plain: Seq<u8>, rest: Seq<u8>)
    requires
        marker_free(plain),
        opens_with_escape(rest),
    ensures
        stripped(plain + rest) == plain + stripped(rest),
    decreases plain.len(),
{
    let text = plain + rest;
    if plain.len() == 0 {
        assert(text =~= rest);
        assert(plain + stripped(rest) =~= stripped(rest));
    } else {
        lemma_no_marker_at_head(plain, rest);
        assert(text.skip(1) =~= plain.skip(1) + rest);
        lemma_marker_free_part(plain, 1, plain.len() as int);
        assert(plain.subrange(1, plain.len() as int) =~= plain.skip(1));
        lemma_stripped_plain(plain.skip(1), rest);
        assert(seq![text[0]] + (plain.skip(1) + stripped(rest)) =~= plain + stripped(rest));
    }
}

/// A start marker is taken out.
pub proof fn lemma_stripped_start(rest: Seq<u8>)
    ensures
        stripped(start_marker() + rest) == stripped(rest),
{
    let text = start_marker() + rest;
    assert(text.subrange(0, start_marker().len() as int) =~= start_marker());
    assert(text.skip(start_marker().len() as int) =~= rest);
}

/// An end marker is taken out.
pub proof fn lemma_stripped_end(rest: Seq<u8>)
    ensures
        stripped(end_marker() + rest) == stripped(rest),
{
    let text = end_marker() + rest;
    assert(!occurs_at(start_marker(), text, 0)) by {
        if occurs_at(start_marker(), text, 0) {
            assert(text.subrange(0, start_marker().len() as int)[2] == start_marker()[2]);
            assert(text[2] == end_marker()[2]);
        }
    }
    assert(text.subrange(0, end_marker().len() as int) =~= end_marker());
    assert(text.skip(end_marker().len() as int) =~= rest);
}

/// From the match at index `k` on, a preview without its markers is the
/// plain output.
pub proof fn lemma_stripped_stitched(
    content: Seq<u8>,
    spans: Seq<(usize, usize)>,
    texts: Seq<Seq<u8>>,
    count: int,
    k: int,
    cursor: int,
)
    requires
        well_placed(spans, content.len() as int),
        0 <= k <= count <= spans.len(),
        count <= texts.len(),
        0 <= cursor <= content.len(),
        k < count ==> cursor <= spans[k].0,
        marker_free(content),
        forall|j: int| 0 <= j < count ==> marker_free(#[trigger] texts[j]),
    ensures
        stripped(stitched(content, spans, texts, start_marker(), end_marker(), count, k, cursor))
            == stitched(content, spans, texts, Seq::empty(), Seq::empty(), count, k, cursor),
    decreases count - k,
{
    let none = Seq::<u8>::empty();
    if k >= count {
        let tail = content.subrange(cursor, content.len() as int);
        lemma_marker_free_part(content, cursor, content.len() as int);
        assert(tail + none =~= tail);
        lemma_stripped_plain(tail, none);
    } else {
        let (start, end) = spans[k];
        assert(spans[k].0 <= spans[k].1 <= content.len());
        assert(k + 1 < count ==> spans[k].1 <= spans[k + 1].0);
        let gap = content.subrange(cursor, start as int);
        lemma_marker_free_part(content, cursor, start as int);
        let text = texts[k];
        let marked = stitched(
            content,
            spans,
            texts,
            start_marker(),
            end_marker(),
            count,
            k + 1,
            end as int,
        );
        let plain = stitched(content, spans, texts, none, none, count, k + 1, end as int);
        lemma_stripped_stitched(content, spans, texts, count, k + 1, end as int);
        lemma_stripped_end(marked);
        assert((end_marker() + marked)[0] == ESCAPE);
        lemma_stripped_plain(text, end_marker() + marked);
        lemma_stripped_start(text + (end_marker() + marked));
        assert((start_marker() + (text + (end_marker() + marked)))[0] == ESCAPE);
        lemma_stripped_plain(gap, start_marker() + (text + (end_marker() + marked)));
        assert(gap + start_marker() + text + end_marker() + marked =~= gap + (start_marker() + (text
            + (end_marker() + marked))));
        assert(gap + none + text + none + plain =~= gap + (text + plain));
    }
}

/// A preview without its markers is the plain output, where no marker
/// occurs in the content or in a replacement text.
pub proof fn lemma_preview_strips_to_plain(
    content: Seq<u8>,
    spans: Seq<(usize, usize)>,
    texts: Seq<Seq<u8>>,
    limit: int,
)
    requires
        well_placed(spans, content.len() as int),
        texts.len() == spans.len(),
        limit >= 0,
        marker_free(content),
        forall|j: int| 0 <= j < texts.len() ==> marker_free(#[trigger] texts[j]),
    ensures
        stripped(rendered(content, spans, texts, limit, start_marker(), end_marker())) == rendered(
            content,
            spans,
            texts,
            limit,
            Seq::empty(),
            Seq::empty(),
        ),
{
    let count = applied_count(spans.len() as int, limit);
    if count > 0 {
        assert(0 <= spans[0].0);
    }
    lemma_stripped_stitched(content, spans, texts, count, 0, 0);
}

} // verus!

//! The order in which the chunks of a group are emitted: script chunks first,
//! then style chunks, then all others, each kind in the order in which its
//! chunks were found. Chunks are neither merged nor split.

use vstd::prelude::*;
use crate::graph::{ChunkGraph, ChunkKind};
use crate::traversal::nodes_in;

verus! {

/// The chunks of `chunks` that are of kind `kind`, in their order.
pub open spec fn of_kind(kinds: Seq<ChunkKind>, chunks: Seq<usize>, kind: ChunkKind) -> Seq<usize>
    decreases chunks.len(),
{
    if chunks.len() == 0 {
        Seq::empty()
    } else if kinds[chunks.last() as int] == kind {
        of_kind(kinds, chunks.drop_last(), kind).push(chunks.last())
    } else {
        of_kind(kinds, chunks.drop_last(), kind)
    }
}

/// `chunks` in the order of emission.
pub open spec fn optimized(kinds: Seq<ChunkKind>, chunks: Seq<usize>) -> Seq<usize> {
    of_kind(kinds, chunks, ChunkKind::Ecmascript) + of_kind(kinds, chunks, ChunkKind::Css)
        + of_kind(kinds, chunks, ChunkKind::Other)
}

/// The place of a kind in the order of emission.
pub open spec fn kind_rank(kind: ChunkKind) -> int {
    match kind {
        ChunkKind::Ecmascript => 0,
        ChunkKind::Css => 1,
        ChunkKind::Other => 2,
    }
}

/// What `of_kind` keeps: chunks of `chunks`, all of the kind asked for, and
/// every such chunk of `chunks`; no more of them than `chunks` holds; and none
/// twice where `chunks` holds none twice.
pub proof fn lemma_of_kind(kinds: Seq<ChunkKind>, chunks: Seq<usize>, kind: ChunkKind)
    ensures
        of_kind(kinds, chunks, kind).len() <= chunks.len(),
        forall|i: int|
            0 <= i < of_kind(kinds, chunks, kind).len() ==> kinds[(#[trigger] of_kind(
                kinds,
                chunks,
                kind,
            )[i]) as int] == kind,
        forall|x: usize|
            of_kind(kinds, chunks, kind).contains(x) <==> chunks.contains(x) && kinds[x as int]
                == kind,
        chunks.no_duplicates() ==> of_kind(kinds, chunks, kind).no_duplicates(),
    decreases chunks.len(),
{
    let kept = of_kind(kinds, chunks, kind);
    if chunks.len() > 0 {
        let rest = chunks.drop_last();
        let last = chunks.last();
        let kept_rest = of_kind(kinds, rest, kind);
        lemma_of_kind(kinds, rest, kind);
        assert forall|x: usize| kept.contains(x) <==> chunks.contains(x) && kinds[x as int]
            == kind by {
            if kept.contains(x) {
                let i = choose|i: int| 0 <= i < kept.len() && kept[i] == x;
                if i < kept_rest.len() {
                    assert(kept_rest[i] == x);
                    assert(kept_rest.contains(x));
                    let j = choose|j: int| 0 <= j < rest.len() && rest[j] == x;
                    assert(chunks[j] == x);
                } else {
                    assert(x == last);
                    assert(chunks[chunks.len() - 1] == x);
                }
            }
            if chunks.contains(x) && kinds[x as int] == kind {
                let j = choose|j: int| 0 <= j < chunks.len() && chunks[j] == x;
                if j < rest.len() {
                    assert(rest[j] == x);
                    assert(rest.contains(x));
                    let i = choose|i: int| 0 <= i < kept_rest.len() && kept_rest[i] == x;
                    assert(kept[i] == x);
                } else {
                    assert(kept[kept.len() - 1] == x);
                }
            }
        }
        if chunks.no_duplicates() {
            assert(rest.no_duplicates());
            if kinds[last as int] == kind {
                assert(!rest.contains(last)) by {
                    if rest.contains(last) {
                        let j = choose|j: int| 0 <= j < rest.len() && rest[j] == last;
                        assert(chunks[j] == chunks[chunks.len() - 1]);
                    }
                }
                assert(!kept_rest.contains(last));
                assert forall|i: int, j: int|
                    0 <= i < kept.len() && 0 <= j < kept.len() && i != j implies kept[i]
                    != kept[j] by {
                    if i < kept_rest.len() && j < kept_rest.len() {
                    } else if i < kept_rest.len() {
                        assert(kept_rest.contains(kept_rest[i]));
                    } else {
                        assert(kept_rest.contains(kept_rest[j]));
                    }
                }
            }
        }
    }
}

/// A list whose chunks are all of one kind is kept whole by that kind and
/// dropped whole by every other.
proof fn lemma_of_kind_uniform(
    kinds: Seq<ChunkKind>,
    chunks: Seq<usize>,
    all: ChunkKind,
    kind: ChunkKind,
)
    requires
        forall|i: int| 0 <= i < chunks.len() ==> kinds[(#[trigger] chunks[i]) as int] == all,
    ensures
        of_kind(kinds, chunks, kind) == if all == kind {
            chunks
        } else {
            Seq::empty()
        },
    decreases chunks.len(),
{
    if chunks.len() > 0 {
        let rest = chunks.drop_last();
        assert forall|i: int| 0 <= i < rest.len() implies kinds[(#[trigger] rest[i]) as int]
            == all by {
            assert(rest[i] == chunks[i]);
        }
        lemma_of_kind_uniform(kinds, rest, all, kind);
        assert(kinds[chunks[chunks.len() - 1] as int] == all);
        if all == kind {
            assert(rest.push(chunks.last()) =~= chunks);
        }
    } else {
        assert(chunks =~= Seq::<usize>::empty());
    }
}

/// `of_kind` of two lists, one after the other, is `of_kind` of the first and
/// then of the second.
proof fn lemma_of_kind_concat(
    kinds: Seq<ChunkKind>,
    a: Seq<usize>,
    b: Seq<usize>,
    kind: ChunkKind,
)
    ensures
        of_kind(kinds, a + b, kind) == of_kind(kinds, a, kind) + of_kind(kinds, b, kind),
    decreases b.len(),
{
    if b.len() == 0 {
        assert(a + b =~= a);
        assert(of_kind(kinds, a, kind) + of_kind(kinds, b, kind) =~= of_kind(kinds, a, kind));
    } else {
        lemma_of_kind_concat(kinds, a, b.drop_last(), kind);
        assert((a + b).drop_last() =~= a + b.drop_last());
        assert((a + b).last() == b.last());
        if kinds[b.last() as int] == kind {
            assert(of_kind(kinds, a, kind) + of_kind(kinds, b, kind) =~= (of_kind(kinds, a, kind)
                + of_kind(kinds, b.drop_last(), kind)).push(b.last()));
        }
    }
}

/// The three kinds share the chunks out among them.
proof fn lemma_of_kind_lengths(kinds: Seq<ChunkKind>, chunks: Seq<usize>)
    ensures
        optimized(kinds, chunks).len() == chunks.len(),
    decreases chunks.len(),
{
    if chunks.len() > 0 {
        lemma_of_kind_lengths(kinds, chunks.drop_last());
    }
}

/// The order of emission holds the chunks that were found, each as often as it
/// was found: as many chunks, the same chunks, and none twice where none was
/// found twice.
pub proof fn lemma_optimized_keeps_chunks(kinds: Seq<ChunkKind>, chunks: Seq<usize>)
    ensures
        optimized(kinds, chunks).len() == chunks.len(),
        forall|x: usize| optimized(kinds, chunks).contains(x) <==> chunks.contains(x),
        chunks.no_duplicates() ==> optimized(kinds, chunks).no_duplicates(),
{
    let js = of_kind(kinds, chunks, ChunkKind::Ecmascript);
    let css = of_kind(kinds, chunks, ChunkKind::Css);
    let other = of_kind(kinds, chunks, ChunkKind::Other);
    let all = optimized(kinds, chunks);
    lemma_of_kind_lengths(kinds, chunks);
    lemma_of_kind(kinds, chunks, ChunkKind::Ecmascript);
    lemma_of_kind(kinds, chunks, ChunkKind::Css);
    lemma_of_kind(kinds, chunks, ChunkKind::Other);
    assert forall|x: usize| all.contains(x) <==> chunks.contains(x) by {
        if all.contains(x) {
            let i = choose|i: int| 0 <= i < all.len() && all[i] == x;
            if i < js.len() {
                assert(js[i] == x);
                assert(js.contains(x));
            } else if i < js.len() + css.len() {
                assert(css[i - js.len()] == x);
                assert(css.contains(x));
            } else {
                assert(other[i - js.len() - css.len()] == x);
                assert(other.contains(x));
            }
        }
        if chunks.contains(x) {
            match kinds[x as int] {
                ChunkKind::Ecmascript => {
                    let i = choose|i: int| 0 <= i < js.len() && js[i] == x;
                    assert(all[i] == x);
                },
                ChunkKind::Css => {
                    let i = choose|i: int| 0 <= i < css.len() && css[i] == x;
                    assert(all[js.len() + i] == x);
                },
                ChunkKind::Other => {
                    let i = choose|i: int| 0 <= i < other.len() && other[i] == x;
                    assert(all[js.len() + css.len() + i] == x);
                },
            }
        }
    }
    if chunks.no_duplicates() {
        assert forall|i: int, j: int| 0 <= i < all.len() && 0 <= j < all.len() && i != j implies all[i]
            != all[j] by {
            lemma_optimized_ranks(kinds, chunks);
            if i < j {
                lemma_optimized_distinct(kinds, chunks, i, j);
            } else {
                lemma_optimized_distinct(kinds, chunks, j, i);
            }
        }
    }
}

proof fn lemma_optimized_distinct(kinds: Seq<ChunkKind>, chunks: Seq<usize>, i: int, j: int)
    requires
        chunks.no_duplicates(),
        0 <= i < j < optimized(kinds, chunks).len(),
    ensures
        optimized(kinds, chunks)[i] != optimized(kinds, chunks)[j],
{
    let js = of_kind(kinds, chunks, ChunkKind::Ecmascript);
    let css = of_kind(kinds, chunks, ChunkKind::Css);
    let other = of_kind(kinds, chunks, ChunkKind::Other);
    lemma_of_kind(kinds, chunks, ChunkKind::Ecmascript);
    lemma_of_kind(kinds, chunks, ChunkKind::Css);
    lemma_of_kind(kinds, chunks, ChunkKind::Other);
    let all = optimized(kinds, chunks);
    let a = js.len() as int;
    let b = a + css.len();
    if j < a {
        assert(all[i] == js[i] && all[j] == js[j]);
    } else if j < b {
        assert(all[j] == css[j - a]);
        if i < a {
            assert(all[i] == js[i]);
        } else {
            assert(all[i] == css[i - a]);
        }
    } else {
        assert(all[j] == other[j - b]);
        if i < a {
            assert(all[i] == js[i]);
        } else if i < b {
            assert(all[i] == css[i - a]);
        } else {
            assert(all[i] == other[i - b]);
        }
    }
}

/// In the order of emission no chunk stands before a chunk of a kind that
/// comes earlier: script chunks, then style chunks, then the others.
pub proof fn lemma_optimized_ranks(kinds: Seq<ChunkKind>, chunks: Seq<usize>)
    ensures
        forall|i: int, j: int|
            0 <= i <= j < optimized(kinds, chunks).len() ==> kind_rank(
                kinds[optimized(kinds, chunks)[i] as int],
            ) <= kind_rank(kinds[optimized(kinds, chunks)[j] as int]),
{
    let js = of_kind(kinds, chunks, ChunkKind::Ecmascript);
    let css = of_kind(kinds, chunks, ChunkKind::Css);
    let other = of_kind(kinds, chunks, ChunkKind::Other);
    lemma_of_kind(kinds, chunks, ChunkKind::Ecmascript);
    lemma_of_kind(kinds, chunks, ChunkKind::Css);
    lemma_of_kind(kinds, chunks, ChunkKind::Other);
    let all = optimized(kinds, chunks);
    let a = js.len() as int;
    let b = a + css.len();
    assert forall|i: int| 0 <= i < all.len() implies kind_rank(kinds[#[trigger] all[i] as int]) == (
    if i < a {
        0int
    } else if i < b {
        1int
    } else {
        2int
    }) by {
        if i < a {
            assert(all[i] == js[i]);
        } else if i < b {
            assert(all[i] == css[i - a]);
        } else {
            assert(all[i] == other[i - b]);
        }
    }
}

/// Ordering what is in the order of emission changes nothing.
pub proof fn lemma_optimized_idempotent(kinds: Seq<ChunkKind>, chunks: Seq<usize>)
    ensures
        optimized(kinds, optimized(kinds, chunks)) == optimized(kinds, chunks),
{
    let js = of_kind(kinds, chunks, ChunkKind::Ecmascript);
    let css = of_kind(kinds, chunks, ChunkKind::Css);
    let other = of_kind(kinds, chunks, ChunkKind::Other);
    lemma_of_kind(kinds, chunks, ChunkKind::Ecmascript);
    lemma_of_kind(kinds, chunks, ChunkKind::Css);
    lemma_of_kind(kinds, chunks, ChunkKind::Other);
    let all = optimized(kinds, chunks);
    assert(all == (js + css) + other);
    assert forall|kind: ChunkKind| #[trigger] of_kind(kinds, all, kind) == of_kind(kinds, js, kind)
        + of_kind(kinds, css, kind) + of_kind(kinds, other, kind) by {
        lemma_of_kind_concat(kinds, js + css, other, kind);
        lemma_of_kind_concat(kinds, js, css, kind);
    }
    assert forall|kind: ChunkKind| #![trigger of_kind(kinds, all, kind)]
        of_kind(kinds, js, kind) == (if kind == ChunkKind::Ecmascript {
            js
        } else {
            Seq::empty()
        }) && of_kind(kinds, css, kind) == (if kind == ChunkKind::Css {
            css
        } else {
            Seq::empty()
        }) && of_kind(kinds, other, kind) == (if kind == ChunkKind::Other {
            other
        } else {
            Seq::empty()
        }) by {
        lemma_of_kind_uniform(kinds, js, ChunkKind::Ecmascript, kind);
        lemma_of_kind_uniform(kinds, css, ChunkKind::Css, kind);
        lemma_of_kind_uniform(kinds, other, ChunkKind::Other, kind);
    }
    assert(of_kind(kinds, all, ChunkKind::Ecmascript) =~= js);
    assert(of_kind(kinds, all, ChunkKind::Css) =~= css);
    assert(of_kind(kinds, all, ChunkKind::Other) =~= other);
}

/// The order of emission looks only at the kinds of the chunks that it
/// orders.
pub proof fn lemma_optimized_local(kinds: Seq<ChunkKind>, other: Seq<ChunkKind>, chunks: Seq<usize>)
    requires
        forall|i: int| 0 <= i < chunks.len() ==> kinds[(#[trigger] chunks[i]) as int] == other[chunks[i] as int],
    ensures
        optimized(kinds, chunks) == optimized(other, chunks),
{
    lemma_of_kind_local(kinds, other, chunks, ChunkKind::Ecmascript);
    lemma_of_kind_local(kinds, other, chunks, ChunkKind::Css);
    lemma_of_kind_local(kinds, other, chunks, ChunkKind::Other);
}

proof fn lemma_of_kind_local(
    kinds: Seq<ChunkKind>,
    other: Seq<ChunkKind>,
    chunks: Seq<usize>,
    kind: ChunkKind,
)
    requires
        forall|i: int| 0 <= i < chunks.len() ==> kinds[(#[trigger] chunks[i]) as int] == other[chunks[i] as int],
    ensures
        of_kind(kinds, chunks, kind) == of_kind(other, chunks, kind),
    decreases chunks.len(),
{
    if chunks.len() > 0 {
        let rest = chunks.drop_last();
        assert forall|i: int| 0 <= i < rest.len() implies kinds[(#[trigger] rest[i]) as int]
            == other[rest[i] as int] by {
            assert(rest[i] == chunks[i]);
        }
        lemma_of_kind_local(kinds, other, rest, kind);
        assert(kinds[chunks[chunks.len() - 1] as int] == other[chunks[chunks.len() - 1] as int]);
    }
}

/// Puts the chunks that were found into the order of emission.
pub fn get_optimized_chunks(graph: &ChunkGraph, chunks: &Vec<usize>) -> (ordered: Vec<usize>)
    requires
        nodes_in(graph.edges(), chunks@),
    ensures
        ordered@ == optimized(graph.kinds(), chunks@),
        ordered@.len() == chunks@.len(),
        forall|x: usize| ordered@.contains(x) <==> chunks@.contains(x),
        chunks@.no_duplicates() ==> ordered@.no_duplicates(),
        nodes_in(graph.edges(), ordered@),
{
    let ghost kinds = graph.kinds();
    let mut ecmascript_chunks: Vec<usize> = Vec::new();
    let mut css_chunks: Vec<usize> = Vec::new();
    let mut other_chunks: Vec<usize> = Vec::new();
    let mut i: usize = 0;
    while i < chunks.len()
        invariant
            i <= chunks@.len(),
            kinds == graph.kinds(),
            nodes_in(graph.edges(), chunks@),
            ecmascript_chunks@ == of_kind(kinds, chunks@.subrange(0, i as int), ChunkKind::Ecmascript),
            css_chunks@ == of_kind(kinds, chunks@.subrange(0, i as int), ChunkKind::Css),
            other_chunks@ == of_kind(kinds, chunks@.subrange(0, i as int), ChunkKind::Other),
        decreases chunks@.len() - i,
    {
        let chunk = chunks[i];
        proof {
            let upto = chunks@.subrange(0, i + 1);
            assert(upto.drop_last() =~= chunks@.subrange(0, i as int));
            assert(upto.last() == chunk);
            assert(chunk < graph.edges().len());
        }
        match graph.chunk(chunk).kind {
            ChunkKind::Ecmascript => {
                ecmascript_chunks.push(chunk);
            },
            ChunkKind::Css => {
                css_chunks.push(chunk);
            },
            ChunkKind::Other => {
                other_chunks.push(chunk);
            },
        }
        i += 1;
    }
    assert(chunks@.subrange(0, i as int) =~= chunks@);
    let mut ordered = ecmascript_chunks;
    ordered.append(&mut css_chunks);
    ordered.append(&mut other_chunks);
    proof {
        lemma_optimized_keeps_chunks(kinds, chunks@);
        assert forall|j: int| 0 <= j < ordered@.len() implies (#[trigger] ordered@[j])
            < graph.edges().len() by {
            assert(ordered@.contains(ordered@[j]));
            assert(chunks@.contains(ordered@[j]));
        }
    }
    ordered
}

} // verus!

//! The event-stream rewriter: the one non-trivial state-machine rule of
//! the pipeline. Events pass through untouched, except that text inside
//! an open code block is diverted into an accumulation buffer, and the
//! block's close replaces the whole region by a single highlighted HTML
//! fragment.
use crate::events::md_events;
use crate::events::html_of;
use crate::events::parse_events;
use crate::events::render_events;
use crate::events::EvView;
use crate::events::MdEvent;
use crate::highlight::block_frag_wf;
use crate::highlight::Highlighter;
use vstd::prelude::*;

verus! {

/// The accumulator state: idle, or inside a code block holding the
/// declared language token and the text diverted so far.
pub ghost enum RwState {
    Idle,
    Acc { token: Option<Seq<char>>, buf: Seq<char> },
}

/// The machine, run over a whole stream. `frags` supplies the HTML
/// fragment to emit for each completed code block, in order; the result
/// is the rewritten stream, the final state, and the completed blocks
/// (token and accumulated text) in order.
///
/// Transitions: in `Idle`, a block start opens an empty accumulator, a
/// stray block end is dropped, and every other event is forwarded. While
/// accumulating, text is diverted into the buffer, a block start restarts
/// the accumulator, a block end emits one HTML fragment and returns to
/// `Idle`, and every other event is forwarded.
pub open spec fn rw_run(evs: Seq<EvView>, frags: Seq<Seq<char>>) -> (
    Seq<EvView>,
    RwState,
    Seq<(Option<Seq<char>>, Seq<char>)>,
)
    decreases evs.len(),
{
    if evs.len() == 0 {
        (Seq::empty(), RwState::Idle, Seq::empty())
    } else {
        let prev = rw_run(evs.drop_last(), frags);
        let out = prev.0;
        let st = prev.1;
        let blocks = prev.2;
        let e = evs.last();
        match st {
            RwState::Idle => match e {
                EvView::CodeStart(t) => (
                    out,
                    RwState::Acc { token: t, buf: Seq::empty() },
                    blocks,
                ),
                EvView::CodeEnd => (out, RwState::Idle, blocks),
                _ => (out.push(e), RwState::Idle, blocks),
            },
            RwState::Acc { token, buf } => match e {
                EvView::Text(s) => (out, RwState::Acc { token, buf: buf + s }, blocks),
                EvView::CodeStart(t2) => (
                    out,
                    RwState::Acc { token: t2, buf: Seq::empty() },
                    blocks,
                ),
                EvView::CodeEnd => (
                    out.push(
                        EvView::Html(
                            if blocks.len() < frags.len() {
                                frags[blocks.len() as int]
                            } else {
                                Seq::empty()
                            },
                        ),
                    ),
                    RwState::Idle,
                    blocks.push((token, buf)),
                ),
                _ => (out.push(e), RwState::Acc { token, buf }, blocks),
            },
        }
    }
}

/// The block count of a run never shrinks as the stream grows.
proof fn lemma_rw_run_blocks_grow(evs: Seq<EvView>, frags: Seq<Seq<char>>)
    requires
        evs.len() > 0,
    ensures
        rw_run(evs.drop_last(), frags).2.len() <= rw_run(evs, frags).2.len(),
{
}

/// A run that used at most the first `f1.len()` fragments is unchanged
/// under any extension of the fragment sequence.
proof fn lemma_rw_run_frags_extend(evs: Seq<EvView>, f1: Seq<Seq<char>>, f2: Seq<Seq<char>>)
    requires
        f1.len() <= f2.len(),
        f2.subrange(0, f1.len() as int) == f1,
        rw_run(evs, f1).2.len() <= f1.len(),
    ensures
        rw_run(evs, f2) == rw_run(evs, f1),
    decreases evs.len(),
{
    if evs.len() > 0 {
        lemma_rw_run_blocks_grow(evs, f1);
        lemma_rw_run_frags_extend(evs.drop_last(), f1, f2);
        let prev = rw_run(evs.drop_last(), f1);
        if prev.1 is Acc && evs.last() is CodeEnd {
            assert(f2[prev.2.len() as int] == f1[prev.2.len() as int]);
        }
    }
}

/// Runs the rewriter over a parsed event stream, highlighting each
/// completed code block with `hl`. The returned ghost sequence holds the
/// emitted fragments; each is a well-formed block container for the text
/// that the corresponding block accumulated.
pub fn rewrite_events(evs: Vec<MdEvent>, hl: &Highlighter) -> (r: (
    Vec<MdEvent>,
    Ghost<Seq<Seq<char>>>,
))
    ensures
        ({
            let run = rw_run(evs.deep_view(), r.1@);
            &&& r.0.deep_view() == run.0
            &&& r.1@.len() == run.2.len()
            &&& forall|i: int|
                0 <= i < r.1@.len() ==> block_frag_wf(r.1@[i], run.2[i].1)
        }),
{
    let ghost all = evs.deep_view();
    let mut rest = evs;
    let mut out: Vec<MdEvent> = Vec::new();
    let mut in_block = false;
    let mut token: Option<String> = None;
    let mut buf = String::new();
    let ghost mut k: int = 0;
    let ghost mut frags: Seq<Seq<char>> = Seq::empty();
    let ghost mut blocks: Seq<(Option<Seq<char>>, Seq<char>)> = Seq::empty();
    proof {
        assert(all.take(0) =~= Seq::<EvView>::empty());
        assert(out.deep_view() =~= Seq::<EvView>::empty());
        assert(rest.deep_view() =~= all.skip(0));
    }
    while rest.len() > 0
        invariant
            0 <= k <= all.len(),
            rest.deep_view() == all.skip(k),
            rest@.len() == all.len() - k,
            rw_run(all.take(k), frags) == (
                out.deep_view(),
                if in_block {
                    RwState::Acc { token: token.deep_view(), buf: buf@ }
                } else {
                    RwState::Idle
                },
                blocks,
            ),
            frags.len() == blocks.len(),
            forall|i: int| 0 <= i < frags.len() ==> block_frag_wf(frags[i], blocks[i].1),
        decreases rest@.len(),
    {
        let ghost rs0 = rest@;
        let ghost rv0 = rest.deep_view();
        let e = rest.remove(0);
        let ghost ev = e.deep_view();
        proof {
            assert(ev == rv0[0]);
            assert(ev == all[k]);
            assert forall|j: int| 0 <= j < rest@.len() implies rest.deep_view()[j] == all.skip(
                k + 1,
            )[j] by {
                assert(rest@[j] == rs0[j + 1]);
                assert(rest.deep_view()[j] == rs0[j + 1].deep_view());
                assert(rv0[j + 1] == rs0[j + 1].deep_view());
                assert(all.skip(k)[j + 1] == all.skip(k + 1)[j]);
            }
            assert(rest.deep_view() =~= all.skip(k + 1));
            assert(all.take(k + 1).drop_last() =~= all.take(k));
            assert(all.take(k + 1).last() == all[k]);
        }
        let ghost pre_out = out.deep_view();
        match e {
            MdEvent::CodeStart(t) => {
                in_block = true;
                token = t;
                buf = String::new();
            },
            MdEvent::CodeEnd => {
                if in_block {
                    let frag = hl.render_block(token.as_ref(), buf.as_str());
                    let ghost completed = (token.deep_view(), buf@);
                    out.push(MdEvent::Html(frag));
                    in_block = false;
                    token = None;
                    buf = String::new();
                    proof {
                        assert(frags.push(frag@).drop_last() =~= frags);
                        assert(frags.push(frag@).subrange(0, frags.len() as int) =~= frags);
                        lemma_rw_run_frags_extend(all.take(k), frags, frags.push(frag@));
                        frags = frags.push(frag@);
                        blocks = blocks.push(completed);
                        assert(out.deep_view() =~= pre_out.push(EvView::Html(frag@)));
                    }
                }
            },
            MdEvent::Text(s) => {
                if in_block {
                    buf.append(s.as_str());
                } else {
                    out.push(MdEvent::Text(s));
                    proof {
                        assert(out.deep_view() =~= pre_out.push(ev));
                    }
                }
            },
            MdEvent::Html(h) => {
                out.push(MdEvent::Html(h));
                proof {
                    assert(out.deep_view() =~= pre_out.push(ev));
                }
            },
            MdEvent::Carry(c) => {
                out.push(MdEvent::Carry(c));
                proof {
                    assert(out.deep_view() =~= pre_out.push(ev));
                }
            },
        }
        proof {
            k = k + 1;
        }
    }
    proof {
        assert(all.take(k) =~= all);
    }
    (out, Ghost(frags))
}

/// What `markdown_to_html` guarantees about its result, for one
/// particular choice of highlighted block fragments: the output renders
/// the parsed event stream after rewriting, and every fragment is a
/// well-formed block container for the text its block accumulated.
pub open spec fn rewrite_witness(md: Seq<char>, html: Seq<char>, frags: Seq<Seq<char>>) -> bool {
    let run = rw_run(md_events(md), frags);
    &&& html == html_of(run.0)
    &&& frags.len() == run.2.len()
    &&& forall|i: int| 0 <= i < frags.len() ==> block_frag_wf(frags[i], run.2[i].1)
}

/// The contract of the full markdown stage.
pub open spec fn rewrite_ok(md: Seq<char>, html: Seq<char>) -> bool {
    exists|frags: Seq<Seq<char>>| rewrite_witness(md, html, frags)
}

/// The markdown stage: parses a document body into an event stream,
/// rewrites fenced code regions into highlighted HTML, and renders the
/// result to a single HTML string.
pub fn markdown_to_html(md: &str, hl: &Highlighter) -> (r: String)
    ensures
        rewrite_ok(md@, r@),
{
    let evs = parse_events(md);
    let rewritten = rewrite_events(evs, hl);
    let html = render_events(rewritten.0);
    proof {
        assert(rewrite_witness(md@, html@, rewritten.1@));
    }
    html
}

/// Is `e` a code-block boundary?
pub open spec fn is_code_boundary(e: EvView) -> bool {
    e is CodeStart || e is CodeEnd
}

/// A stream with no code-block boundaries at all.
pub open spec fn no_code_events(evs: Seq<EvView>) -> bool {
    forall|i: int| 0 <= i < evs.len() ==> !is_code_boundary(#[trigger] evs[i])
}

/// With no code-block boundaries in the stream, the rewriter is the
/// identity: it forwards every event, completes no block and uses no
/// fragment.
pub proof fn lemma_rw_run_no_code(evs: Seq<EvView>, frags: Seq<Seq<char>>)
    requires
        no_code_events(evs),
    ensures
        rw_run(evs, frags).0 == evs,
        rw_run(evs, frags).1 is Idle,
        rw_run(evs, frags).2 == Seq::<(Option<Seq<char>>, Seq<char>)>::empty(),
    decreases evs.len(),
{
    if evs.len() > 0 {
        let t = evs.drop_last();
        assert forall|i: int| 0 <= i < t.len() implies !is_code_boundary(#[trigger] t[i]) by {
            assert(t[i] == evs[i]);
        }
        lemma_rw_run_no_code(t, frags);
        assert(rw_run(evs, frags).0 =~= evs);
    }
}

/// Recompiling an unchanged document whose markdown produces no code
/// blocks yields byte-identical HTML: for such documents the stage is
/// deterministic, whatever fragments either run chose.
pub proof fn lemma_rewrite_deterministic_no_code(md: Seq<char>, h1: Seq<char>, h2: Seq<char>)
    requires
        no_code_events(md_events(md)),
        rewrite_ok(md, h1),
        rewrite_ok(md, h2),
    ensures
        h1 == h2,
{
    let f1 = choose|f: Seq<Seq<char>>| rewrite_witness(md, h1, f);
    let f2 = choose|f: Seq<Seq<char>>| rewrite_witness(md, h2, f);
    lemma_rw_run_no_code(md_events(md), f1);
    lemma_rw_run_no_code(md_events(md), f2);
}

} // verus!

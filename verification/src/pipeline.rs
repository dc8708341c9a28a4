//! The pipeline orchestrator: one forward pass that normalizes code-block
//! info strings, converts straight quotes to curly quotes outside verbatim
//! regions, rewrites eligible relative link destinations when a document
//! path context is available, and drives the external renderer.

use vstd::prelude::*;

use crate::codeblock::{clean_codeblock_headers, clean_phase, clean_step};
use crate::events::{html_of, parse_events_of, parse_markdown, render_events, views_of, EventView,
    MdEvent};
use crate::links::{ext_matches, is_relative_url, link_phase_ok, link_step_ok,
    lemma_link_phase_identity, md_ext, parent_of, PathOracle, RelativeLinkConverter};
use crate::quotes::{has_no_quotes, lemma_curly_no_quotes, quote_phase, quote_run, quote_step,
    EventQuoteConverter};

verus! {

/// The two deterministic phases of the pipeline: info-string normalization
/// followed by quote conversion with a fresh verbatim-region state.
pub open spec fn normalized_stream(evs: Seq<EventView>, curly_quotes: bool) -> Seq<EventView> {
    quote_phase(clean_phase(evs), curly_quotes)
}

/// An event the pipeline leaves alone: not a code-block start, no straight
/// quote in a text run, and no link-start destination that is both relative
/// and carries the markdown extension token.
pub open spec fn plain_event(ev: EventView) -> bool {
    match ev {
        EventView::Text(t) => has_no_quotes(t),
        EventView::CodeBlockStart(_) => false,
        EventView::IndentedCodeBlockStart => false,
        EventView::LinkStart(k, d, t, id) => !(is_relative_url(d) && ext_matches(d, md_ext())),
        _ => true,
    }
}

/// A stream of events the pipeline leaves alone.
pub open spec fn plain_stream(evs: Seq<EventView>) -> bool {
    forall|i: int| 0 <= i < evs.len() ==> plain_event(#[trigger] evs[i])
}

proof fn lemma_clean_plain_identity(evs: Seq<EventView>)
    requires
        plain_stream(evs),
    ensures
        clean_phase(evs) == evs,
{
    assert(clean_phase(evs) =~= evs);
}

proof fn lemma_quote_plain_identity(evs: Seq<EventView>, enabled: bool)
    requires
        plain_stream(evs),
    ensures
        quote_run(evs, enabled, true).0 == evs,
        quote_run(evs, enabled, true).1 == true,
    decreases evs.len(),
{
    if evs.len() == 0 {
        assert(quote_run(evs, enabled, true).0 =~= evs);
    } else {
        assert forall|i: int| 0 <= i < evs.drop_last().len() implies plain_event(
            #[trigger] evs.drop_last()[i],
        ) by {
            assert(evs.drop_last()[i] == evs[i]);
        }
        lemma_quote_plain_identity(evs.drop_last(), enabled);
        let last = evs.last();
        match last {
            EventView::Text(t) => lemma_curly_no_quotes(t),
            _ => {},
        }
        assert(quote_step(enabled, true, last).0 == last);
        assert(quote_run(evs, enabled, true).0 =~= evs);
    }
}

/// Round trip: an event stream with no code blocks, no straight quotes in
/// prose, and no relative markdown links passes through every phase of the
/// pipeline unchanged, so rendering the pipeline's output is rendering the
/// original stream.
pub proof fn lemma_round_trip(evs: Seq<EventView>, curly_quotes: bool, out: Seq<EventView>)
    requires
        plain_stream(evs),
        link_phase_ok(normalized_stream(evs, curly_quotes), out),
    ensures
        normalized_stream(evs, curly_quotes) == evs,
        out == evs,
        html_of(out) == html_of(evs),
{
    lemma_clean_plain_identity(evs);
    lemma_quote_plain_identity(evs, curly_quotes);
    lemma_link_phase_identity(evs, out);
}

/// Renders markup text to HTML: the text is parsed by the external parser,
/// each event flows through info-string normalization and quote conversion,
/// then — only when a document path context with a containing directory is
/// given — through relative-link rewriting against the existence oracle,
/// and the resulting stream is serialized by the external renderer.
pub fn render_markdown<O: PathOracle>(
    text: &str,
    path: Option<&str>,
    is_file: O,
    curly_quotes: bool,
) -> (r: String)
    ensures
        ({
            let base = normalized_stream(parse_events_of(text@), curly_quotes);
            &&& exists|mid: Seq<EventView>| #[trigger] link_phase_ok(base, mid) && r@ == html_of(
                mid,
            )
            &&& path is None ==> r@ == html_of(base)
            &&& (path matches Some(p) && p@.len() == 0) ==> r@ == html_of(base)
        }),
{
    let ghost all: Seq<EventView> = parse_events_of(text@);
    let mut events = parse_markdown(text);
    proof {
        assert(views_of(events@) == all);
    }
    let ghost total: int = events@.len() as int;
    proof {
        assert(all.len() == total);
    }
    let mut converter = EventQuoteConverter::new(curly_quotes);
    let mut staged: Vec<MdEvent> = Vec::new();
    while events.len() > 0
        invariant
            views_of(events@) =~= all.skip(total - events@.len()),
            0 <= total - events@.len() <= total == all.len(),
            converter.enabled == curly_quotes,
            views_of(staged@) == quote_run(
                clean_phase(all).take(total - events@.len()),
                curly_quotes,
                true,
            ).0,
            converter.convert_text == quote_run(
                clean_phase(all).take(total - events@.len()),
                curly_quotes,
                true,
            ).1,
            staged@.len() == total - events@.len(),
        decreases events@.len(),
    {
        let ghost k: int = total - events@.len();
        let ghost before: Seq<MdEvent> = events@;
        let ghost prev: Seq<MdEvent> = staged@;
        let ev = events.remove(0);
        proof {
            assert(views_of(before) == all.skip(k));
            assert(ev@ == views_of(before)[0]);
            assert(views_of(before)[0] == all.skip(k)[0]);
            assert(all.skip(k)[0] == all[k]);
        }
        let cleaned = clean_codeblock_headers(ev);
        let converted = converter.convert(cleaned);
        staged.push(converted);
        proof {
            assert forall|i: int| 0 <= i < events@.len() implies views_of(events@)[i] == all.skip(
                k + 1,
            )[i] by {
                assert(events@[i] == before[i + 1]);
                assert(views_of(before)[i + 1] == all.skip(k)[i + 1]);
            }
            assert(views_of(events@) =~= all.skip(k + 1));
            let c = clean_phase(all);
            assert(c.take(k + 1).drop_last() =~= c.take(k));
            assert(c.take(k + 1).last() == c[k]);
            assert(c[k] == clean_step(all[k]));
            assert(cleaned@ == clean_step(all[k]));
            let run = quote_run(c.take(k), curly_quotes, true);
            let run2 = quote_run(c.take(k + 1), curly_quotes, true);
            assert(run2.0 == run.0.push(quote_step(curly_quotes, run.1, c[k]).0));
            assert(converted@ == quote_step(curly_quotes, run.1, c[k]).0);
            assert(staged@ == prev.push(converted));
            assert forall|i: int| 0 <= i < staged@.len() implies views_of(staged@)[i] == run2.0[i]
                by {
                if i < k {
                    assert(staged@[i] == prev[i]);
                    assert(views_of(prev)[i] == run.0[i]);
                    assert(run2.0[i] == run.0[i]);
                } else {
                    assert(i == k);
                    assert(staged@[k] == converted);
                }
            }
            assert(views_of(prev).len() == run.0.len());
            assert(views_of(staged@) =~= run2.0);
        }
    }
    proof {
        assert(clean_phase(all).take(total) =~= clean_phase(all));
    }
    let ghost base: Seq<EventView> = normalized_stream(all, curly_quotes);
    proof {
        assert(views_of(staged@) == base);
    }
    match path {
        Some(p) => {
            match parent_of(p) {
                Some(parent) => {
                    let mut link_converter = RelativeLinkConverter::new(parent, is_file);
                    let mut rewritten: Vec<MdEvent> = Vec::new();
                    let ghost staged_views: Seq<EventView> = views_of(staged@);
                    let ghost total2: int = staged@.len() as int;
                    while staged.len() > 0
                        invariant
                            views_of(staged@) =~= staged_views.skip(total2 - staged@.len()),
                            0 <= total2 - staged@.len() <= total2 == staged_views.len(),
                            rewritten@.len() == total2 - staged@.len(),
                            forall|i: int|
                                0 <= i < rewritten@.len() ==> link_step_ok(
                                    staged_views[i],
                                    #[trigger] views_of(rewritten@)[i],
                                ),
                        decreases staged@.len(),
                    {
                        let ghost k2: int = total2 - staged@.len();
                        let ghost before: Seq<MdEvent> = staged@;
                        let ghost prev: Seq<MdEvent> = rewritten@;
                        let ev = staged.remove(0);
                        proof {
                            assert(views_of(before) == staged_views.skip(k2));
                            assert(ev@ == views_of(before)[0]);
                            assert(views_of(before)[0] == staged_views.skip(k2)[0]);
                            assert(staged_views.skip(k2)[0] == staged_views[k2]);
                        }
                        let out = link_converter.convert(ev);
                        rewritten.push(out);
                        proof {
                            assert forall|i: int| 0 <= i < staged@.len() implies views_of(
                                staged@,
                            )[i] == staged_views.skip(k2 + 1)[i] by {
                                assert(staged@[i] == before[i + 1]);
                                assert(views_of(before)[i + 1] == staged_views.skip(k2)[i + 1]);
                            }
                            assert(views_of(staged@) =~= staged_views.skip(k2 + 1));
                            assert(rewritten@ == prev.push(out));
                            assert(link_step_ok(staged_views[k2], out@));
                            assert forall|i: int| 0 <= i < rewritten@.len() implies link_step_ok(
                                staged_views[i],
                                #[trigger] views_of(rewritten@)[i],
                            ) by {
                                if i < k2 {
                                    assert(rewritten@[i] == prev[i]);
                                    assert(views_of(rewritten@)[i] == views_of(prev)[i]);
                                } else {
                                    assert(i == k2);
                                    assert(views_of(rewritten@)[k2] == out@);
                                }
                            }
                        }
                    }
                    proof {
                        assert(link_phase_ok(base, views_of(rewritten@)));
                    }
                    render_events(rewritten)
                },
                None => {
                    proof {
                        lemma_link_identity_witness(base);
                    }
                    render_events(staged)
                },
            }
        },
        None => {
            proof {
                lemma_link_identity_witness(base);
            }
            render_events(staged)
        },
    }
}

/// Any stream is related to itself by the relative-link phase.
proof fn lemma_link_identity_witness(evs: Seq<EventView>)
    ensures
        link_phase_ok(evs, evs),
{
}

} // verus!

//! Normalization of code-block info strings: every whitespace character is
//! removed, and nothing else changes, so that a multi-token info string
//! becomes one clean comma-joined token safe for an HTML class attribute.

use vstd::prelude::*;

use crate::events::{EventView, MdEvent};
use crate::text::{chars_to_string, is_ws, is_ws_char, str_to_chars};

verus! {

/// The info string with every whitespace character removed: all other
/// characters are kept, in order.
pub open spec fn strip_ws(s: Seq<char>) -> Seq<char> {
    s.filter(|c: char| !is_ws_char(c))
}

proof fn lemma_strip_ws_push(s: Seq<char>, c: char)
    ensures
        !is_ws_char(c) ==> strip_ws(s.push(c)) == strip_ws(s).push(c),
        is_ws_char(c) ==> strip_ws(s.push(c)) == strip_ws(s),
{
    reveal(Seq::<_>::filter);
    assert(s.push(c).drop_last() =~= s);
    assert(s.push(c).last() == c);
}

/// Removes every whitespace character from a string, keeping all other
/// characters in order.
pub fn strip_whitespace(s: &str) -> (r: String)
    ensures
        r@ == strip_ws(s@),
{
    let chars = str_to_chars(s);
    let mut out: Vec<char> = Vec::new();
    let mut i: usize = 0;
    while i < chars.len()
        invariant
            i <= chars.len(),
            chars@ == s@,
            out@ == strip_ws(chars@.take(i as int)),
        decreases chars.len() - i,
    {
        let c = chars[i];
        proof {
            assert(chars@.take(i + 1 as int) =~= chars@.take(i as int).push(chars@[i as int]));
            lemma_strip_ws_push(chars@.take(i as int), chars@[i as int]);
        }
        if !is_ws(c) {
            out.push(c);
        }
        i = i + 1;
    }
    proof {
        assert(chars@.take(chars@.len() as int) =~= chars@);
    }
    chars_to_string(&out)
}

/// The action of the normalizer on one event: only a fenced code-block
/// start is touched, and only by whitespace removal from its info string.
pub open spec fn clean_step(ev: EventView) -> EventView {
    match ev {
        EventView::CodeBlockStart(info) => EventView::CodeBlockStart(strip_ws(info)),
        _ => ev,
    }
}

/// The normalization phase of the pipeline, applied to each event
/// independently.
pub open spec fn clean_phase(evs: Seq<EventView>) -> Seq<EventView> {
    evs.map_values(|e: EventView| clean_step(e))
}

/// Strips whitespace from the info string of a code-block start event;
/// every other event passes through unchanged.
pub fn clean_codeblock_headers(event: MdEvent) -> (r: MdEvent)
    ensures
        r@ == clean_step(event@),
        !(event@ matches EventView::CodeBlockStart(_)) ==> r@ == event@,
{
    match event {
        MdEvent::CodeBlockStart(info) => MdEvent::CodeBlockStart(strip_whitespace(info.as_str())),
        other => other,
    }
}

} // verus!

//! Conversion of straight quotation marks into typographic ("curly") quotes,
//! applied to prose text only: text inside a code span or code block is
//! exempt, and the whole transform is the identity when disabled.

use vstd::prelude::*;

use crate::events::{EventView, MdEvent};
use crate::text::{chars_to_string, is_ws, is_ws_char, str_to_chars};

verus! {

/// The conversion of one character: a straight quote becomes the opening
/// glyph when preceded by whitespace (or at the start of the run), the
/// closing glyph otherwise; every other character is unchanged.
pub open spec fn curly_char(c: char, preceded_by_whitespace: bool) -> char {
    if c == '\'' {
        if preceded_by_whitespace {
            '\u{2018}'
        } else {
            '\u{2019}'
        }
    } else if c == '"' {
        if preceded_by_whitespace {
            '\u{201C}'
        } else {
            '\u{201D}'
        }
    } else {
        c
    }
}

/// Whether the character at position `i` of `s` counts as preceded by
/// whitespace: the start of the run is treated as whitespace, and the test
/// looks at the original (pre-conversion) predecessor.
pub open spec fn ws_before(s: Seq<char>, i: int) -> bool {
    i == 0 || is_ws_char(s[i - 1])
}

/// The curly-quote conversion of a whole text run, character by character.
pub open spec fn curly_seq(s: Seq<char>) -> Seq<char> {
    Seq::new(s.len(), |i: int| curly_char(s[i], ws_before(s, i)))
}

/// A text run with no straight quote character in it.
pub open spec fn has_no_quotes(s: Seq<char>) -> bool {
    forall|i: int| 0 <= i < s.len() ==> s[i] != '\'' && s[i] != '"'
}

/// The character-level quote rule, stated pointwise: the conversion keeps
/// the length, a straight quote preceded by whitespace (or at the start of
/// the run) becomes the opening glyph, any other straight quote the closing
/// glyph, and every other character is unchanged.
pub proof fn lemma_curly_pointwise(s: Seq<char>, i: int)
    requires
        0 <= i < s.len(),
    ensures
        curly_seq(s).len() == s.len(),
        s[i] == '\'' && ws_before(s, i) ==> curly_seq(s)[i] == '\u{2018}',
        s[i] == '\'' && !ws_before(s, i) ==> curly_seq(s)[i] == '\u{2019}',
        s[i] == '"' && ws_before(s, i) ==> curly_seq(s)[i] == '\u{201C}',
        s[i] == '"' && !ws_before(s, i) ==> curly_seq(s)[i] == '\u{201D}',
        s[i] != '\'' && s[i] != '"' ==> curly_seq(s)[i] == s[i],
{
}

/// A run without straight quotes is left byte-identical by the conversion.
pub proof fn lemma_curly_no_quotes(s: Seq<char>)
    requires
        has_no_quotes(s),
    ensures
        curly_seq(s) == s,
{
    assert(curly_seq(s) =~= s);
}

/// Rewrites the straight quotes of one text run into curly quotes.
pub fn convert_quotes_to_curly(original_text: &str) -> (r: String)
    ensures
        r@ == curly_seq(original_text@),
{
    let chars = str_to_chars(original_text);
    let mut out: Vec<char> = Vec::new();
    let mut preceded_by_whitespace = true;
    let mut i: usize = 0;
    while i < chars.len()
        invariant
            i <= chars.len(),
            chars@ == original_text@,
            out@.len() == i,
            preceded_by_whitespace == ws_before(chars@, i as int),
            forall|j: int|
                0 <= j < i ==> out@[j] == curly_char(chars@[j], ws_before(chars@, j)),
        decreases chars.len() - i,
    {
        let c = chars[i];
        let converted: char = if c == '\'' {
            if preceded_by_whitespace {
                '\u{2018}'
            } else {
                '\u{2019}'
            }
        } else if c == '"' {
            if preceded_by_whitespace {
                '\u{201C}'
            } else {
                '\u{201D}'
            }
        } else {
            c
        };
        out.push(converted);
        preceded_by_whitespace = is_ws(c);
        i = i + 1;
    }
    proof {
        assert(out@ =~= curly_seq(original_text@));
    }
    chars_to_string(&out)
}

/// The action of the quote converter on one event, together with the
/// verbatim-region state it leaves behind. `convert_text` is true outside
/// verbatim regions; a code-block start clears it, a code-block end sets it,
/// and a text event is rewritten only while it is set. When the converter is
/// disabled every event passes through and the state is untouched.
pub open spec fn quote_step(enabled: bool, convert_text: bool, ev: EventView) -> (EventView, bool) {
    if !enabled {
        (ev, convert_text)
    } else {
        match ev {
            EventView::CodeBlockStart(_) => (ev, false),
            EventView::IndentedCodeBlockStart => (ev, false),
            EventView::CodeBlockEnd => (ev, true),
            EventView::Text(t) => if convert_text {
                (EventView::Text(curly_seq(t)), convert_text)
            } else {
                (ev, convert_text)
            },
            _ => (ev, convert_text),
        }
    }
}

/// The quote converter run over a whole event sequence from state
/// `convert_text`, yielding the rewritten sequence and the final state.
pub open spec fn quote_run(evs: Seq<EventView>, enabled: bool, convert_text: bool) -> (
    Seq<EventView>,
    bool,
)
    decreases evs.len(),
{
    if evs.len() == 0 {
        (Seq::<EventView>::empty(), convert_text)
    } else {
        let (pre, st) = quote_run(evs.drop_last(), enabled, convert_text);
        let (last, st2) = quote_step(enabled, st, evs.last());
        (pre.push(last), st2)
    }
}

/// The quote phase of the pipeline: a run over the whole stream, with the
/// verbatim-region state freshly initialized.
pub open spec fn quote_phase(evs: Seq<EventView>, enabled: bool) -> Seq<EventView> {
    quote_run(evs, enabled, true).0
}

/// A stateful per-document transform over the structural event stream that
/// rewrites straight quotes to curly quotes in prose text only.
pub struct EventQuoteConverter {
    /// Whether curly-quote conversion is enabled at all.
    pub enabled: bool,
    /// True outside verbatim regions: text is rewritten only while set.
    pub convert_text: bool,
}

impl EventQuoteConverter {
    /// A fresh converter for one document pass; the state starts outside
    /// any verbatim region.
    pub fn new(enabled: bool) -> (c: Self)
        ensures
            c.enabled == enabled,
            c.convert_text == true,
    {
        EventQuoteConverter { enabled, convert_text: true }
    }

    /// Transforms one event in document order: exactly `quote_step` applied
    /// to the current state. In particular, when disabled the event passes
    /// through unchanged, and text inside a verbatim region is never
    /// rewritten.
    pub fn convert(&mut self, event: MdEvent) -> (r: MdEvent)
        ensures
            r@ == quote_step(old(self).enabled, old(self).convert_text, event@).0,
            final(self).convert_text == quote_step(
                old(self).enabled,
                old(self).convert_text,
                event@,
            ).1,
            final(self).enabled == old(self).enabled,
            !old(self).enabled ==> r@ == event@ && *final(self) == *old(self),
            event@ matches EventView::Code(_) ==> r@ == event@,
    {
        if !self.enabled {
            return event;
        }
        match event {
            MdEvent::CodeBlockStart(info) => {
                self.convert_text = false;
                MdEvent::CodeBlockStart(info)
            },
            MdEvent::IndentedCodeBlockStart => {
                self.convert_text = false;
                MdEvent::IndentedCodeBlockStart
            },
            MdEvent::CodeBlockEnd => {
                self.convert_text = true;
                MdEvent::CodeBlockEnd
            },
            MdEvent::Text(text) => {
                if self.convert_text {
                    MdEvent::Text(convert_quotes_to_curly(text.as_str()))
                } else {
                    MdEvent::Text(text)
                }
            },
            other => other,
        }
    }
}

/// Each event of a run is the step applied to the state the preceding
/// prefix leaves behind: the pointwise reading of `quote_run`.
pub proof fn lemma_quote_run_index(evs: Seq<EventView>, enabled: bool, st: bool, i: int)
    requires
        0 <= i < evs.len(),
    ensures
        quote_run(evs, enabled, st).0.len() == evs.len(),
        quote_run(evs, enabled, st).0[i] == quote_step(
            enabled,
            quote_run(evs.take(i), enabled, st).1,
            evs[i],
        ).0,
    decreases evs.len(),
{
    lemma_quote_run_len(evs, enabled, st);
    if i == evs.len() - 1 {
        assert(evs.take(i) =~= evs.drop_last());
        lemma_quote_run_len(evs.drop_last(), enabled, st);
    } else {
        lemma_quote_run_index(evs.drop_last(), enabled, st, i);
        assert(evs.drop_last().take(i) =~= evs.take(i));
        assert(evs.drop_last()[i] == evs[i]);
        lemma_quote_run_len(evs.drop_last(), enabled, st);
    }
}

/// A quote run keeps the length of the stream.
pub proof fn lemma_quote_run_len(evs: Seq<EventView>, enabled: bool, st: bool)
    ensures
        quote_run(evs, enabled, st).0.len() == evs.len(),
    decreases evs.len(),
{
    if evs.len() > 0 {
        lemma_quote_run_len(evs.drop_last(), enabled, st);
    }
}

/// Idempotence of disabling: with curly quotes disabled the whole phase is
/// the identity on the event stream.
pub proof fn lemma_quote_disabled_identity(evs: Seq<EventView>, st: bool)
    ensures
        quote_run(evs, false, st).0 == evs,
        quote_run(evs, false, st).1 == st,
    decreases evs.len(),
{
    if evs.len() == 0 {
        assert(quote_run(evs, false, st).0 =~= evs);
    } else {
        lemma_quote_disabled_identity(evs.drop_last(), st);
        assert(quote_run(evs, false, st).0 =~= evs);
    }
}

/// Verbatim exemption: an inline code span is never rewritten, and neither
/// is a text run that lies inside a code block, that is at a position where
/// the state the preceding prefix leaves behind has `convert_text` false.
pub proof fn lemma_verbatim_exemption(evs: Seq<EventView>, enabled: bool, i: int)
    requires
        0 <= i < evs.len(),
    ensures
        quote_phase(evs, enabled).len() == evs.len(),
        evs[i] matches EventView::Code(_) ==> quote_phase(evs, enabled)[i] == evs[i],
        !quote_run(evs.take(i), enabled, true).1 ==> quote_phase(evs, enabled)[i] == evs[i],
{
    lemma_quote_run_index(evs, enabled, true, i);
}

} // verus!

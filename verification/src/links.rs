//! Rewriting of relative link destinations: a destination that is relative,
//! names a legitimate target, and carries the expected final extension token
//! has that token replaced by the output extension, with every other path
//! segment preserved. Absolute destinations are never rewritten.

use vstd::prelude::*;

use crate::events::{EventView, MdEvent};
use crate::text::{append_chars, chars_eq, chars_to_string, str_to_chars, subchars};

verus! {

/// Whether the external URL parser classifies the string as a relative
/// reference: parsing it as an absolute URL fails specifically for want of
/// a base, rather than succeeding or failing for another reason.
pub uninterp spec fn is_relative_url(dest: Seq<char>) -> bool;

/// Relies on `url::Url::parse`: the outcome is a function of the string
/// alone, and `ParseError::RelativeUrlWithoutBase` is the failure that marks
/// a relative reference.
#[verifier::external_body]
pub fn destination_is_relative(dest: &str) -> (r: bool)
    ensures
        r == is_relative_url(dest@),
{
    matches!(url::Url::parse(dest), Err(url::ParseError::RelativeUrlWithoutBase))
}

/// The start of the final dot-delimited token of the final path segment:
/// the index just after the last `/` or `.`, or `0` if there is neither.
pub open spec fn last_token_start(s: Seq<char>) -> int
    decreases s.len(),
{
    if s.len() == 0 {
        0
    } else if s.last() == '/' || s.last() == '.' {
        s.len() as int
    } else {
        last_token_start(s.drop_last())
    }
}

pub proof fn lemma_last_token_start_bounds(s: Seq<char>)
    ensures
        0 <= last_token_start(s) <= s.len(),
    decreases s.len(),
{
    if s.len() > 0 && !(s.last() == '/' || s.last() == '.') {
        lemma_last_token_start_bounds(s.drop_last());
    }
}

/// The final dot-delimited token of the final path segment.
pub open spec fn final_token(s: Seq<char>) -> Seq<char> {
    s.subrange(last_token_start(s), s.len() as int)
}

/// Whether the destination's trailing extension token equals `expected`.
pub open spec fn ext_matches(s: Seq<char>, expected: Seq<char>) -> bool {
    final_token(s) == expected
}

/// Where the rewrite cuts the destination: just before the last `.` of the
/// final segment when the segment has one, else at the start of the final
/// token, so that the reconstruction below inserts a fresh `.`.
pub open spec fn cut_point(s: Seq<char>) -> int {
    let b = last_token_start(s);
    if b > 0 && s[b - 1] == '.' {
        b - 1
    } else {
        b
    }
}

/// The destination with its final extension token replaced by `ext`:
/// everything before the final token is preserved verbatim.
pub open spec fn rewrite_dest(s: Seq<char>, ext: Seq<char>) -> Seq<char> {
    s.take(cut_point(s)) + seq!['.'] + ext
}

/// Replaces the trailing extension token of the destination when it equals
/// `expected`: the last dot-delimited token of the final path segment is
/// dropped and `.` followed by `ext` takes its place. Returns `None` when
/// the token differs from `expected`.
pub fn swap_extension(dest: &str, expected: &str, ext: &str) -> (r: Option<String>)
    ensures
        match r {
            Some(t) => ext_matches(dest@, expected@) && t@ == rewrite_dest(dest@, ext@),
            None => !ext_matches(dest@, expected@),
        },
{
    let chars = str_to_chars(dest);
    let expv = str_to_chars(expected);
    proof {
        lemma_last_token_start_bounds(chars@);
    }
    let n = chars.len();
    let mut b: usize = 0;
    let mut i: usize = 0;
    while i < n
        invariant
            i <= n,
            n == chars@.len(),
            b as int == last_token_start(chars@.take(i as int)),
            b <= i,
        decreases n - i,
    {
        proof {
            assert(chars@.take(i + 1 as int).drop_last() =~= chars@.take(i as int));
        }
        if chars[i] == '/' || chars[i] == '.' {
            b = i + 1;
        }
        i = i + 1;
    }
    proof {
        assert(chars@.take(n as int) =~= chars@);
    }
    let token = subchars(&chars, b, n);
    if !chars_eq(&token, &expv) {
        return None;
    }
    let cut: usize = if b > 0 {
        if chars[b - 1] == '.' {
            b - 1
        } else {
            b
        }
    } else {
        b
    };
    let mut out = subchars(&chars, 0, cut);
    out.push('.');
    let extv = str_to_chars(ext);
    append_chars(&mut out, &extv);
    proof {
        assert(chars@.subrange(0, cut as int) =~= chars@.take(cut_point(chars@)));
        assert(out@ =~= rewrite_dest(dest@, ext@));
    }
    Some(chars_to_string(&out))
}

/// What the unified link-destination filter yields: the rewritten
/// destination exactly when the destination is relative, eligible, and
/// carries the expected extension token; nothing otherwise.
pub open spec fn translation_of(
    dest: Seq<char>,
    eligible: bool,
    expected: Seq<char>,
    ext: Seq<char>,
) -> Option<Seq<char>> {
    if is_relative_url(dest) && eligible && ext_matches(dest, expected) {
        Some(rewrite_dest(dest, ext))
    } else {
        None
    }
}

/// The unified link-destination filter, with the eligibility verdict
/// supplied as a value: a destination is translated exactly when it is
/// relative, eligible, and its extension token equals `expected`.
pub fn translate_destination(dest: &str, eligible: bool, expected: &str, ext: &str) -> (r: Option<
    String,
>)
    ensures
        match r {
            Some(t) => translation_of(dest@, eligible, expected@, ext@) matches Some(v) && t@ == v,
            None => translation_of(dest@, eligible, expected@, ext@) is None,
        },
{
    if !destination_is_relative(dest) {
        return None;
    }
    if !eligible {
        return None;
    }
    swap_extension(dest, expected, ext)
}

/// The extension token of a markdown source document.
pub open spec fn md_ext() -> Seq<char> {
    seq!['m', 'd']
}

/// The extension token of a rendered output document.
pub open spec fn html_ext() -> Seq<char> {
    seq!['h', 't', 'm', 'l']
}

/// The index just after the last `/`, or `0` if there is none.
pub open spec fn last_slash_end(s: Seq<char>) -> int
    decreases s.len(),
{
    if s.len() == 0 {
        0
    } else if s.last() == '/' {
        s.len() as int
    } else {
        last_slash_end(s.drop_last())
    }
}

pub proof fn lemma_last_slash_end_props(s: Seq<char>)
    ensures
        0 <= last_slash_end(s) <= s.len(),
        last_slash_end(s) > 0 ==> s[last_slash_end(s) - 1] == '/',
        forall|i: int| last_slash_end(s) <= i < s.len() ==> s[i] != '/',
    decreases s.len(),
{
    if s.len() > 0 && s.last() != '/' {
        lemma_last_slash_end_props(s.drop_last());
        assert forall|i: int| last_slash_end(s) <= i < s.len() implies s[i] != '/' by {
            if i < s.len() - 1 {
                assert(s.drop_last()[i] == s[i]);
            }
        }
    }
}

pub proof fn lemma_last_token_start_props(s: Seq<char>)
    ensures
        0 <= last_token_start(s) <= s.len(),
        last_token_start(s) > 0 ==> (s[last_token_start(s) - 1] == '/' || s[last_token_start(s)
            - 1] == '.'),
        forall|i: int| last_token_start(s) <= i < s.len() ==> s[i] != '/' && s[i] != '.',
    decreases s.len(),
{
    if s.len() > 0 && !(s.last() == '/' || s.last() == '.') {
        lemma_last_token_start_props(s.drop_last());
        assert forall|i: int| last_token_start(s) <= i < s.len() implies s[i] != '/' && s[i]
            != '.' by {
            if i < s.len() - 1 {
                assert(s.drop_last()[i] == s[i]);
            }
        }
    }
}

/// `last_slash_end` is the unique cut with a `/` just before it and none
/// at or after it.
proof fn lemma_last_slash_end_at(x: Seq<char>, l: int)
    requires
        0 <= l <= x.len(),
        l > 0 ==> x[l - 1] == '/',
        forall|i: int| l <= i < x.len() ==> x[i] != '/',
    ensures
        last_slash_end(x) == l,
    decreases x.len(),
{
    if x.len() == 0 {
    } else if x.last() == '/' {
        if l < x.len() {
            assert(x[x.len() - 1] != '/');
        }
    } else {
        if l == x.len() {
            assert(x[x.len() - 1] == '/');
        }
        assert forall|i: int| l <= i < x.drop_last().len() implies x.drop_last()[i] != '/' by {
            assert(x.drop_last()[i] == x[i]);
        }
        lemma_last_slash_end_at(x.drop_last(), l);
    }
}

/// Destination reconstruction preserves all path segments except the final
/// extension token: the final path segment holds no further `/`, the cut
/// lies inside it, every character before the cut — in particular the whole
/// prefix up to and including the last `/` — is kept verbatim, what follows
/// the cut is exactly one `.` and the new extension, and (for an extension
/// free of `/`) the rewritten destination's final segment starts exactly
/// where the original's did.
pub proof fn lemma_rewrite_preserves_segments(s: Seq<char>, ext: Seq<char>)
    ensures
        last_slash_end(s) <= cut_point(s) <= s.len(),
        forall|i: int| last_slash_end(s) <= i < s.len() ==> s[i] != '/',
        rewrite_dest(s, ext).len() == cut_point(s) + 1 + ext.len(),
        forall|i: int| 0 <= i < cut_point(s) ==> rewrite_dest(s, ext)[i] == s[i],
        rewrite_dest(s, ext)[cut_point(s)] == '.',
        forall|i: int|
            0 <= i < ext.len() ==> rewrite_dest(s, ext)[cut_point(s) + 1 + i] == ext[i],
        rewrite_dest(s, ext).take(last_slash_end(s)) == s.take(last_slash_end(s)),
        (forall|i: int| 0 <= i < ext.len() ==> ext[i] != '/') ==> last_slash_end(
            rewrite_dest(s, ext),
        ) == last_slash_end(s),
{
    lemma_last_slash_end_props(s);
    lemma_last_token_start_props(s);
    let b = last_token_start(s);
    let lse = last_slash_end(s);
    let cut = cut_point(s);
    if lse > b {
        assert(s[lse - 1] == '/');
    }
    if b > 0 && s[b - 1] == '.' && lse > b - 1 {
        assert(s[lse - 1] == '/');
    }
    assert(rewrite_dest(s, ext).take(lse) =~= s.take(lse));
    if forall|i: int| 0 <= i < ext.len() ==> ext[i] != '/' {
        let r = rewrite_dest(s, ext);
        assert forall|i: int| lse <= i < r.len() implies r[i] != '/' by {
            if i < cut {
                assert(r[i] == s[i]);
            } else if i == cut {
                assert(r[i] == '.');
            } else {
                assert(r[i] == ext[i - cut - 1]);
            }
        }
        lemma_last_slash_end_at(r, lse);
    }
}

/// The directory a document path resolves relative destinations against:
/// everything before the last `/`, or the empty string when the path has no
/// `/` in it.
pub open spec fn parent_dir_of(path: Seq<char>) -> Seq<char> {
    if last_slash_end(path) == 0 {
        Seq::<char>::empty()
    } else {
        path.take(last_slash_end(path) - 1)
    }
}

/// The containing directory of a document path, or `None` for the empty
/// path, which names no document.
pub fn parent_of(path: &str) -> (r: Option<String>)
    ensures
        match r {
            Some(p) => path@.len() > 0 && p@ == parent_dir_of(path@),
            None => path@.len() == 0,
        },
{
    let chars = str_to_chars(path);
    if chars.len() == 0 {
        return None;
    }
    proof {
        lemma_last_slash_end_props(chars@);
    }
    let n = chars.len();
    let mut e: usize = 0;
    let mut i: usize = 0;
    while i < n
        invariant
            i <= n,
            n == chars@.len(),
            e as int == last_slash_end(chars@.take(i as int)),
            e <= i,
        decreases n - i,
    {
        proof {
            assert(chars@.take(i + 1 as int).drop_last() =~= chars@.take(i as int));
        }
        if chars[i] == '/' {
            e = i + 1;
        }
        i = i + 1;
    }
    proof {
        assert(chars@.take(n as int) =~= chars@);
    }
    let parent = if e == 0 {
        Vec::<char>::new()
    } else {
        subchars(&chars, 0, e - 1)
    };
    proof {
        assert(parent@ =~= parent_dir_of(path@));
    }
    Some(chars_to_string(&parent))
}

/// A relative destination resolved against a base directory: the
/// destination itself when the base is empty, else the two joined by `/`.
pub open spec fn resolved_path(dir: Seq<char>, rel: Seq<char>) -> Seq<char> {
    if dir.len() == 0 {
        rel
    } else {
        dir + seq!['/'] + rel
    }
}

/// Joins a relative destination onto a base directory.
pub fn resolve(dir: &str, rel: &str) -> (r: String)
    ensures
        r@ == resolved_path(dir@, rel@),
{
    let mut out = str_to_chars(dir);
    let relv = str_to_chars(rel);
    if out.len() == 0 {
        proof {
            assert(relv@ =~= resolved_path(dir@, rel@));
        }
        return chars_to_string(&relv);
    }
    out.push('/');
    append_chars(&mut out, &relv);
    proof {
        assert(out@ =~= resolved_path(dir@, rel@));
    }
    chars_to_string(&out)
}

/// A caller-supplied capability deciding whether a path names a legitimate
/// link target — typically, whether a file exists there. It must be a pure
/// query: repeated calls with the same path must be safe to make.
pub trait PathOracle {
    /// Whether a file exists at the given resolved path.
    fn is_file(&self, path: &str) -> bool;
}

/// A filter to optionally apply to links.
pub trait LinkFilter {
    /// Optionally translate the given destination, if applicable.
    fn apply(&self, dest: &str) -> Option<String>;
}

/// Translates relative destinations whose eligibility the supplied oracle
/// affirms, replacing the `expected` extension token by `ext`.
pub struct ChangeExtLinkFilter<O> {
    /// Decides whether a destination is a legitimate link target at all.
    pub is_dest: O,
    /// The extension token a destination must carry to be translated.
    pub expected: String,
    /// The extension token that takes its place.
    pub ext: String,
}

impl<O: PathOracle> ChangeExtLinkFilter<O> {
    /// A filter that consults `is_dest` for eligibility and swaps
    /// `expected` for `ext`.
    pub fn new(is_dest: O, expected: String, ext: String) -> (f: Self)
        ensures
            f.is_dest == is_dest,
            f.expected == expected,
            f.ext == ext,
    {
        ChangeExtLinkFilter { is_dest, expected, ext }
    }
}

impl<O: PathOracle> LinkFilter for ChangeExtLinkFilter<O> {
    /// A destination comes back translated only if it is relative and its
    /// extension token equals the expected one, and then the translation is
    /// exactly the extension swap; whether an eligible destination is
    /// translated rests with the oracle, which is consulted only for
    /// relative destinations.
    fn apply(&self, dest: &str) -> (r: Option<String>)
        ensures
            !is_relative_url(dest@) ==> r is None,
            !ext_matches(dest@, self.expected@) ==> r is None,
            r matches Some(t) ==> is_relative_url(dest@) && ext_matches(dest@, self.expected@)
                && t@ == rewrite_dest(dest@, self.ext@),
    {
        if !destination_is_relative(dest) {
            return None;
        }
        let eligible = self.is_dest.is_file(dest);
        translate_destination(dest, eligible, self.expected.as_str(), self.ext.as_str())
    }
}

/// Translates the given destination from a relative link with an `md`
/// extension to a link with an `html` extension, provided the destination,
/// resolved against the document's containing directory `path`, names an
/// existing file. A destination that is absolute or carries another
/// extension is never translated; whether an eligible one is translated
/// rests with the existence oracle, consulted once, and only for relative
/// destinations.
pub fn translate_relative_link<O: PathOracle>(path: &str, dest: &str, is_file: &O) -> (r: Option<
    String,
>)
    ensures
        !is_relative_url(dest@) ==> r is None,
        !ext_matches(dest@, md_ext()) ==> r is None,
        r matches Some(t) ==> is_relative_url(dest@) && ext_matches(dest@, md_ext()) && t@
            == rewrite_dest(dest@, html_ext()),
{
    proof {
        reveal_strlit("md");
        reveal_strlit("html");
        assert("md"@ =~= md_ext());
        assert("html"@ =~= html_ext());
    }
    if !destination_is_relative(dest) {
        return None;
    }
    let md_path = resolve(path, dest);
    let eligible = is_file.is_file(md_path.as_str());
    translate_destination(dest, eligible, "md", "html")
}

/// How one event may come out of the relative-link phase: a link-start
/// event either passes through unchanged or — only if its destination is
/// relative and carries the `md` token — has exactly that token replaced by
/// `html`, with its kind, title and identifier untouched; every other event
/// passes through unchanged.
pub open spec fn link_step_ok(ev: EventView, r: EventView) -> bool {
    match ev {
        EventView::LinkStart(k, d, t, id) => {
            ||| r == ev
            ||| (is_relative_url(d) && ext_matches(d, md_ext()) && r == EventView::LinkStart(
                k,
                rewrite_dest(d, html_ext()),
                t,
                id,
            ))
        },
        _ => r == ev,
    }
}

/// The relative-link phase relates streams pointwise by `link_step_ok`.
pub open spec fn link_phase_ok(evs: Seq<EventView>, out: Seq<EventView>) -> bool {
    &&& out.len() == evs.len()
    &&& forall|i: int| 0 <= i < evs.len() ==> link_step_ok(evs[i], #[trigger] out[i])
}

/// A stream in which every link-start event passes through the relative-link
/// phase unchanged comes out equal to itself.
pub proof fn lemma_link_phase_identity(evs: Seq<EventView>, out: Seq<EventView>)
    requires
        link_phase_ok(evs, out),
        forall|i: int|
            0 <= i < evs.len() ==> (#[trigger] evs[i] matches EventView::LinkStart(k, d, t, id)
                ==> !(is_relative_url(d) && ext_matches(d, md_ext()))),
    ensures
        out == evs,
{
    assert forall|i: int| 0 <= i < evs.len() implies out[i] == evs[i] by {
        assert(link_step_ok(evs[i], out[i]));
    }
    assert(out =~= evs);
}

/// A stateful per-document transform over the event stream that, for
/// link-start events, applies the relative-link translation against the
/// document's own path context and an existence oracle.
pub struct RelativeLinkConverter<O> {
    /// The containing directory of the document being rendered.
    pub path: String,
    /// The existence oracle, queried once per relative link destination.
    pub is_file: O,
}

impl<O: PathOracle> RelativeLinkConverter<O> {
    /// A fresh converter bound to a document's containing directory and an
    /// existence oracle.
    pub fn new(path: String, is_file: O) -> (c: Self)
        ensures
            c.path == path,
            c.is_file == is_file,
    {
        RelativeLinkConverter { path, is_file }
    }

    /// Transforms one event: a link-start event has its destination
    /// translated when eligible, keeping title and all other attributes;
    /// every other event passes through unchanged, and so does a link whose
    /// destination is absolute or lacks the `md` extension.
    pub fn convert(&mut self, event: MdEvent) -> (r: MdEvent)
        ensures
            *final(self) == *old(self),
            link_step_ok(event@, r@),
            !(event@ matches EventView::LinkStart(k, d, t, id)) ==> r@ == event@,
            event@ matches EventView::LinkStart(k, d, t, id) && !(is_relative_url(d)
                && ext_matches(d, md_ext())) ==> r@ == event@,
    {
        match event {
            MdEvent::LinkStart(k, dest, title, id) => {
                match translate_relative_link(self.path.as_str(), dest.as_str(), &self.is_file) {
                    Some(translated) => MdEvent::LinkStart(k, translated, title, id),
                    None => MdEvent::LinkStart(k, dest, title, id),
                }
            },
            other => other,
        }
    }
}

} // verus!

use pulldown_cmark::{Event, Options, Parser};
use vstd::prelude::*;
use vstd::string::StrSliceExecFns;
use vstd::string::StringExecFns;

verus! {

#[verifier::external_type_specification]
#[verifier::external_body]
pub struct ExEvent<'a>(Event<'a>);

/// Any other parser event, kept as it is, beside its full `Debug` text.
/// Only the parse wrappers of this module make one, so the text always
/// belongs to the event.
pub struct MarkupEvent<'a> {
    event: Event<'a>,
    text: String,
}

impl<'a> View for MarkupEvent<'a> {
    type V = Seq<char>;

    closed spec fn view(&self) -> Seq<char> {
        self.text@
    }
}

/// A markdown event: the text-bearing kinds the renderer reads, and every
/// other kind carried through untouched.
pub enum MdEvent<'a> {
    Text(String),
    Code(String),
    Html(String),
    Markup(MarkupEvent<'a>),
}

/// An event as plain values. Other events are given by their derived
/// `Debug` text, which writes out every field.
pub enum EventView {
    Text(Seq<char>),
    Code(Seq<char>),
    Html(Seq<char>),
    Markup(Seq<char>),
}

impl<'a> View for MdEvent<'a> {
    type V = EventView;

    open spec fn view(&self) -> EventView {
        match self {
            MdEvent::Text(t) => EventView::Text(t@),
            MdEvent::Code(c) => EventView::Code(c@),
            MdEvent::Html(h) => EventView::Html(h@),
            MdEvent::Markup(m) => EventView::Markup(m@),
        }
    }
}

pub open spec fn event_views<'a>(events: Seq<MdEvent<'a>>) -> Seq<EventView> {
    events.map_values(|e: MdEvent<'a>| e@)
}

/// The events that pulldown-cmark reads from `text` with no extension.
pub uninterp spec fn markdown_events(text: Seq<char>) -> Seq<EventView>;

/// The events that pulldown-cmark reads from `text` with strikethrough on.
pub uninterp spec fn markdown_events_strikethrough(text: Seq<char>) -> Seq<EventView>;

/// Relies on pulldown_cmark::Parser::new: the CommonMark events of `text`,
/// a function of the text alone. Text, code and raw HTML are moved out of
/// the parser's `CowStr`; other events are kept, beside their `Debug` text.
#[verifier::external_body]
fn parse_markdown<'a>(text: &'a str) -> (r: Vec<MdEvent<'a>>)
    ensures
        event_views(r@) == markdown_events(text@),
{
    Parser::new(text).map(|e| match e {
        Event::Text(t) => MdEvent::Text(t.into_string()),
        Event::Code(c) => MdEvent::Code(c.into_string()),
        Event::Html(h) => MdEvent::Html(h.into_string()),
        other => MdEvent::Markup(MarkupEvent { text: format!("{:?}", other), event: other }),
    }).collect()
}

/// Relies on pulldown_cmark::Parser::new_ext with strikethrough enabled: the
/// events of `text`, with `~~` spans read as strikethrough.
#[verifier::external_body]
fn parse_markdown_strikethrough<'a>(text: &'a str) -> (r: Vec<MdEvent<'a>>)
    ensures
        event_views(r@) == markdown_events_strikethrough(text@),
{
    Parser::new_ext(text, Options::ENABLE_STRIKETHROUGH).map(|e| match e {
        Event::Text(t) => MdEvent::Text(t.into_string()),
        Event::Code(c) => MdEvent::Code(c.into_string()),
        Event::Html(h) => MdEvent::Html(h.into_string()),
        other => MdEvent::Markup(MarkupEvent { text: format!("{:?}", other), event: other }),
    }).collect()
}

/// The HTML that pulldown-cmark writes for a run of events.
pub uninterp spec fn html_of(events: Seq<EventView>) -> Seq<char>;

/// Relies on pulldown_cmark::html::push_html: the HTML of a run of events,
/// which depends on the events alone and is empty for no events. Text moves
/// back into the parser's `CowStr`.
#[verifier::external_body]
fn events_to_html<'a>(events: Vec<MdEvent<'a>>) -> (r: String)
    ensures
        r@ == html_of(event_views(events@)),
        events@.len() == 0 ==> r@.len() == 0,
{
    let mut out = String::new();
    pulldown_cmark::html::push_html(&mut out, events.into_iter().map(|e| match e {
        MdEvent::Text(t) => Event::Text(t.into()),
        MdEvent::Code(c) => Event::Code(c.into()),
        MdEvent::Html(h) => Event::Html(h.into()),
        MdEvent::Markup(m) => m.event,
    }));
    out
}

/// `needle` occurs in `hay` as a contiguous run.
pub open spec fn contains_text(hay: Seq<char>, needle: Seq<char>) -> bool {
    exists|i: int| 0 <= i <= hay.len() - needle.len() && #[trigger] hay.subrange(i, i + needle.len()) == needle
}

/// The plain text of events: the text and inline code, in order; markup,
/// raw HTML and code-fence markers contribute nothing.
pub open spec fn plain_text(events: Seq<EventView>) -> Seq<char>
    decreases events.len(),
{
    if events.len() == 0 {
        Seq::empty()
    } else {
        plain_text(events.drop_last()) + match events.last() {
            EventView::Text(t) => t,
            EventView::Code(c) => c,
            _ => Seq::empty(),
        }
    }
}

/// At most the first `max_len` characters of `s`.
pub open spec fn truncated(s: Seq<char>, max_len: nat) -> Seq<char> {
    if s.len() > max_len {
        s.take(max_len as int)
    } else {
        s
    }
}

/// The characters of `s`, one by one.
pub fn chars_of(s: &str) -> (r: Vec<char>)
    ensures
        r@ == s@,
{
    let n = s.unicode_len();
    let mut out: Vec<char> = Vec::new();
    let mut i: usize = 0;
    while i < n
        invariant
            n == s@.len(),
            i <= n,
            out@ == s@.take(i as int),
        decreases n - i,
    {
        out.push(s.get_char(i));
        i += 1;
        proof {
            assert(out@ == s@.take(i as int));
        }
    }
    proof {
        assert(s@.take(n as int) == s@);
    }
    out
}

/// Whether `needle` occurs in `hay`.
pub fn find_text(hay: &str, needle: &str) -> (r: bool)
    ensures
        r == contains_text(hay@, needle@),
{
    let h = chars_of(hay);
    let n = chars_of(needle);
    if n.len() > h.len() {
        return false;
    }
    let hl = h.len();
    let last = hl - n.len();
    let mut i: usize = 0;
    loop
        invariant
            hl == h@.len(),
            h@ == hay@,
            n@ == needle@,
            last == h@.len() - n@.len(),
            i <= last,
            forall|p: int| 0 <= p < i ==> #[trigger] h@.subrange(p, p + n@.len()) != n@,
        decreases last - i,
    {
        let mut j: usize = 0;
        while j < n.len() && h[i + j] == n[j]
            invariant
                hl == h@.len(),
                h@ == hay@,
                n@ == needle@,
                last == h@.len() - n@.len(),
                i <= last,
                j <= n@.len(),
                h@.subrange(i as int, i + j) == n@.take(j as int),
            decreases n@.len() - j,
        {
            proof {
                assert(h@.subrange(i as int, i + j + 1) == h@.subrange(i as int, i + j).push(h@[i + j]));
                assert(n@.take(j + 1) == n@.take(j as int).push(n@[j as int]));
            }
            j += 1;
        }
        if j == n.len() {
            proof {
                assert(n@.take(n@.len() as int) == n@);
                assert(h@.subrange(i as int, i + n@.len()) == n@);
            }
            return true;
        }
        proof {
            assert(h@.subrange(i as int, i + n@.len())[j as int] != n@[j as int]);
        }
        if i == last {
            return false;
        }
        i += 1;
    }
}

/// `<script` in lower case.
pub open spec fn open_tag_lower() -> Seq<char> {
    seq!['<', 's', 'c', 'r', 'i', 'p', 't']
}

/// `<SCRIPT` in upper case.
pub open spec fn open_tag_upper() -> Seq<char> {
    seq!['<', 'S', 'C', 'R', 'I', 'P', 'T']
}

/// `</script>` in lower case.
pub open spec fn close_tag_lower() -> Seq<char> {
    seq!['<', '/', 's', 'c', 'r', 'i', 'p', 't', '>']
}

/// `</SCRIPT>` in upper case.
pub open spec fn close_tag_upper() -> Seq<char> {
    seq!['<', '/', 'S', 'C', 'R', 'I', 'P', 'T', '>']
}

/// `s` spells the word given in lower and upper case, each letter in either
/// case.
pub open spec fn matches_nocase(s: Seq<char>, lower: Seq<char>, upper: Seq<char>) -> bool {
    s.len() == lower.len() && forall|k: int| 0 <= k < lower.len() ==> s[k] == lower[k] || s[k] == upper[k]
}

/// A script-opening tag, in any letter case, starts at `i`.
pub open spec fn opens_script_at(s: Seq<char>, i: int) -> bool {
    0 <= i && i + 7 <= s.len() && matches_nocase(s.subrange(i, i + 7), open_tag_lower(), open_tag_upper())
}

/// A script-closing tag, in any letter case, starts at `i`.
pub open spec fn closes_script_at(s: Seq<char>, i: int) -> bool {
    0 <= i && i + 9 <= s.len() && matches_nocase(s.subrange(i, i + 9), close_tag_lower(), close_tag_upper())
}

/// No script-opening tag occurs anywhere in `s`.
pub open spec fn no_script_tag(s: Seq<char>) -> bool {
    forall|i: int| !#[trigger] opens_script_at(s, i)
}

/// Cuts script elements out of raw HTML, reading `s` after `out` has been
/// written and with `in_script` telling whether a script is open. Outside a
/// script each character is written, and when the written text then ends
/// with a script-opening tag, that tag is taken back and a script opens.
/// Inside a script everything up to and including the closing tag is
/// skipped. The result is the written text and whether a script is open.
pub open spec fn scrub(s: Seq<char>, out: Seq<char>, in_script: bool) -> (Seq<char>, bool)
    decreases s.len(),
{
    if s.len() == 0 {
        (out, in_script)
    } else if in_script {
        if closes_script_at(s, 0) {
            scrub(s.skip(9), out, false)
        } else {
            scrub(s.skip(1), out, true)
        }
    } else {
        let o = out.push(s[0]);
        if opens_script_at(o, o.len() - 7) {
            scrub(s.skip(1), o.take(o.len() - 7), true)
        } else {
            scrub(s.skip(1), o, false)
        }
    }
}

/// The events with script elements cut out of their raw HTML; a script
/// left open in one piece of raw HTML goes on into the next.
pub open spec fn scrub_events(events: Seq<EventView>, in_script: bool) -> Seq<EventView>
    decreases events.len(),
{
    if events.len() == 0 {
        Seq::empty()
    } else {
        match events[0] {
            EventView::Html(h) => {
                let r = scrub(h, Seq::empty(), in_script);
                seq![EventView::Html(r.0)] + scrub_events(events.skip(1), r.1)
            },
            e => seq![e] + scrub_events(events.skip(1), in_script),
        }
    }
}

/// The HTML of markdown `content` with its script elements cut out.
pub open spec fn rendered_html(content: Seq<char>) -> Seq<char> {
    html_of(scrub_events(markdown_events(content), false))
}

/// Whether `w` spells the tag given in lower and upper case, starting at `i`.
fn matches_at(w: &Vec<char>, i: usize, lower: &Vec<char>, upper: &Vec<char>) -> (r: bool)
    requires
        lower@.len() == upper@.len(),
    ensures
        r == (i + lower@.len() <= w@.len() && matches_nocase(
            w@.subrange(i as int, i + lower@.len()),
            lower@,
            upper@,
        )),
{
    if i > w.len() || lower.len() > w.len() - i {
        return false;
    }
    let wl = w.len();
    let mut k: usize = 0;
    while k < lower.len()
        invariant
            wl == w@.len(),
            lower@.len() == upper@.len(),
            i + lower@.len() <= w@.len(),
            k <= lower@.len(),
            forall|j: int| 0 <= j < k ==> w@[i + j] == lower@[j] || w@[i + j] == upper@[j],
        decreases lower@.len() - k,
    {
        if w[i + k] != lower[k] && w[i + k] != upper[k] {
            return false;
        }
        k += 1;
    }
    true
}

proof fn lemma_no_tag_push(o: Seq<char>, c: char)
    requires
        no_script_tag(o),
        !opens_script_at(o.push(c), o.len() + 1 - 7),
    ensures
        no_script_tag(o.push(c)),
{
    let p = o.push(c);
    assert forall|i: int| !#[trigger] opens_script_at(p, i) by {
        if 0 <= i && i + 7 <= o.len() {
            assert(p.subrange(i, i + 7) == o.subrange(i, i + 7));
            assert(!opens_script_at(o, i));
        }
    }
}

proof fn lemma_no_tag_prefix(o: Seq<char>, n: int)
    requires
        no_script_tag(o),
        0 <= n <= o.len(),
    ensures
        no_script_tag(o.take(n)),
{
    let p = o.take(n);
    assert forall|i: int| !#[trigger] opens_script_at(p, i) by {
        if 0 <= i && i + 7 <= p.len() {
            assert(p.subrange(i, i + 7) == o.subrange(i, i + 7));
            assert(!opens_script_at(o, i));
        }
    }
}

/// What `scrub` writes holds no script-opening tag, if what was written
/// before held none.
pub proof fn lemma_scrub_no_tag(s: Seq<char>, out: Seq<char>, in_script: bool)
    requires
        no_script_tag(out),
    ensures
        no_script_tag(scrub(s, out, in_script).0),
    decreases s.len(),
{
    if s.len() > 0 {
        if in_script {
            if closes_script_at(s, 0) {
                lemma_scrub_no_tag(s.skip(9), out, false);
            } else {
                lemma_scrub_no_tag(s.skip(1), out, true);
            }
        } else {
            let o = out.push(s[0]);
            if opens_script_at(o, o.len() - 7) {
                assert(o.take(o.len() - 7) == out.take(out.len() - 6));
                lemma_no_tag_prefix(out, out.len() - 6);
                lemma_scrub_no_tag(s.skip(1), o.take(o.len() - 7), true);
            } else {
                lemma_no_tag_push(out, s[0]);
                lemma_scrub_no_tag(s.skip(1), o, false);
            }
        }
    }
}

/// No raw HTML that survives the scrub holds a script-opening tag, in any
/// letter case.
pub proof fn lemma_scrubbed_events_script_free(events: Seq<EventView>, in_script: bool)
    ensures
        forall|i: int|
            0 <= i < scrub_events(events, in_script).len() ==> match #[trigger] scrub_events(events, in_script)[i] {
                EventView::Html(h) => no_script_tag(h),
                _ => true,
            },
    decreases events.len(),
{
    if events.len() > 0 {
        let out = scrub_events(events, in_script);
        match events[0] {
            EventView::Html(h) => {
                let r = scrub(h, Seq::empty(), in_script);
                assert(no_script_tag(Seq::<char>::empty()));
                lemma_scrub_no_tag(h, Seq::empty(), in_script);
                lemma_scrubbed_events_script_free(events.skip(1), r.1);
                assert forall|i: int| 0 <= i < out.len() implies match #[trigger] out[i] {
                    EventView::Html(h) => no_script_tag(h),
                    _ => true,
                } by {
                    if i > 0 {
                        assert(out[i] == scrub_events(events.skip(1), r.1)[i - 1]);
                    }
                }
            },
            e => {
                lemma_scrubbed_events_script_free(events.skip(1), in_script);
                assert forall|i: int| 0 <= i < out.len() implies match #[trigger] out[i] {
                    EventView::Html(h) => no_script_tag(h),
                    _ => true,
                } by {
                    if i > 0 {
                        assert(out[i] == scrub_events(events.skip(1), in_script)[i - 1]);
                    }
                }
            },
        }
    }
}

/// Relies on `FromIterator<char> for String`: the characters, in order.
#[verifier::external_body]
fn string_of_chars(chars: Vec<char>) -> (r: String)
    ensures
        r@ == chars@,
{
    chars.into_iter().collect()
}

/// Cuts script elements out of one piece of raw HTML; `in_script` says
/// whether a script was left open before it.
pub fn scrub_html(html: &str, in_script: bool) -> (r: (String, bool))
    ensures
        (r.0@, r.1) == scrub(html@, Seq::empty(), in_script),
{
    let h = chars_of(html);
    let open_lower: Vec<char> = vec!['<', 's', 'c', 'r', 'i', 'p', 't'];
    let open_upper: Vec<char> = vec!['<', 'S', 'C', 'R', 'I', 'P', 'T'];
    let close_lower: Vec<char> = vec!['<', '/', 's', 'c', 'r', 'i', 'p', 't', '>'];
    let close_upper: Vec<char> = vec!['<', '/', 'S', 'C', 'R', 'I', 'P', 'T', '>'];
    proof {
        assert(open_lower@ == open_tag_lower());
        assert(open_upper@ == open_tag_upper());
        assert(close_lower@ == close_tag_lower());
        assert(close_upper@ == close_tag_upper());
    }
    let mut out: Vec<char> = Vec::new();
    let mut inside = in_script;
    let mut i: usize = 0;
    proof {
        assert(h@.skip(0) == h@);
    }
    while i < h.len()
        invariant
            h@ == html@,
            i <= h@.len(),
            open_lower@ == open_tag_lower(),
            open_upper@ == open_tag_upper(),
            close_lower@ == close_tag_lower(),
            close_upper@ == close_tag_upper(),
            scrub(html@, Seq::empty(), in_script) == scrub(h@.skip(i as int), out@, inside),
        decreases h@.len() - i,
    {
        let ghost rest = h@.skip(i as int);
        if inside {
            if matches_at(&h, i, &close_lower, &close_upper) {
                proof {
                    assert(rest.subrange(0, 9) == h@.subrange(i as int, i + 9));
                    assert(rest.skip(9) == h@.skip(i + 9));
                }
                inside = false;
                i += 9;
            } else {
                proof {
                    if 9 <= rest.len() {
                        assert(rest.subrange(0, 9) == h@.subrange(i as int, i + 9));
                    }
                    assert(rest.skip(1) == h@.skip(i + 1));
                }
                i += 1;
            }
        } else {
            let ghost before = out@;
            out.push(h[i]);
            proof {
                assert(rest[0] == h@[i as int]);
                assert(rest.skip(1) == h@.skip(i + 1));
            }
            if out.len() >= 7 && matches_at(&out, out.len() - 7, &open_lower, &open_upper) {
                let keep = out.len() - 7;
                out.truncate(keep);
                inside = true;
            }
            i += 1;
        }
    }
    proof {
        assert(h@.skip(i as int) == Seq::<char>::empty());
    }
    (string_of_chars(out), inside)
}

/// Cuts script elements out of the raw HTML among events, carrying an open
/// script on from one piece of raw HTML to the next.
pub fn scrub_script_events<'a>(events: Vec<MdEvent<'a>>) -> (r: Vec<MdEvent<'a>>)
    ensures
        event_views(r@) == scrub_events(event_views(events@), false),
{
    let ghost all = event_views(events@);
    let total = events.len();
    let mut rest = events;
    let mut out: Vec<MdEvent<'a>> = Vec::new();
    let mut inside = false;
    let mut k: usize = 0;
    proof {
        assert(all.skip(0) == all);
        assert(event_views(out@) == Seq::<EventView>::empty());
        assert(event_views(out@) + all == all);
    }
    while rest.len() > 0
        invariant
            k + rest@.len() == all.len(),
            all.len() == total,
            event_views(rest@) == all.skip(k as int),
            scrub_events(all, false) == event_views(out@) + scrub_events(all.skip(k as int), inside),
        decreases rest@.len(),
    {
        let ghost tail = all.skip(k as int);
        let e = rest.remove(0);
        proof {
            assert(e@ == tail[0]);
            assert(event_views(rest@) == tail.skip(1));
            assert(tail.skip(1) == all.skip(k + 1));
        }
        let ghost before = out@;
        let ghost was = inside;
        match e {
            MdEvent::Html(h) => {
                let (c, st) = scrub_html(h.as_str(), inside);
                out.push(MdEvent::Html(c));
                inside = st;
            },
            other => {
                out.push(other);
            },
        }
        proof {
            assert(event_views(out@) == event_views(before).push(out@.last()@));
            assert(scrub_events(tail, was) == seq![out@.last()@] + scrub_events(all.skip(k + 1), inside));
            assert(event_views(before) + scrub_events(tail, was) == event_views(out@) + scrub_events(all.skip(k + 1), inside));
        }
        k += 1;
    }
    proof {
        assert(all.skip(k as int) == Seq::<EventView>::empty());
        assert(event_views(out@) + Seq::<EventView>::empty() == event_views(out@));
    }
    out
}

/// The events of `content`, with script elements cut out of its raw HTML.
pub fn script_free_events(content: &str) -> (r: Vec<MdEvent>)
    ensures
        event_views(r@) == scrub_events(markdown_events(content@), false),
{
    scrub_script_events(parse_markdown(content))
}

/// Renders markdown to HTML with script elements cut out of its raw HTML:
/// a script element goes, in any letter case, and the text around it stays.
pub fn content_to_markdown(content: &str) -> (r: String)
    ensures
        r@ == rendered_html(content@),
{
    events_to_html(script_free_events(content))
}

/// The plain text of events: text and inline code, concatenated.
pub fn plain_text_of(events: &Vec<MdEvent>) -> (r: String)
    ensures
        r@ == plain_text(event_views(events@)),
{
    let mut out = String::new();
    let mut k: usize = 0;
    while k < events.len()
        invariant
            k <= events@.len(),
            out@ == plain_text(event_views(events@.take(k as int))),
        decreases events@.len() - k,
    {
        proof {
            assert(event_views(events@.take(k + 1)).drop_last() == event_views(events@.take(k as int)));
        }
        match &events[k] {
            MdEvent::Text(t) => out.append(t.as_str()),
            MdEvent::Code(c) => out.append(c.as_str()),
            _ => {
                proof {
                    assert(out@ + Seq::<char>::empty() == out@);
                }
            },
        }
        k += 1;
    }
    proof {
        assert(events@.take(k as int) == events@);
    }
    out
}

/// A plain-text preview of markdown: its text and inline code, cut to at
/// most `max_len` characters.
pub fn render_preview(content: &str, max_len: usize) -> (r: String)
    ensures
        r@ == truncated(plain_text(markdown_events_strikethrough(content@)), max_len as nat),
{
    let events = parse_markdown_strikethrough(content);
    let text = plain_text_of(&events);
    truncate_chars(text, max_len)
}

/// `text` cut to at most `max_len` characters.
pub fn truncate_chars(text: String, max_len: usize) -> (r: String)
    ensures
        r@ == truncated(text@, max_len as nat),
{
    let len = text.as_str().unicode_len();
    if len > max_len {
        String::from_str(text.as_str().substring_char(0, max_len))
    } else {
        text
    }
}

/// The list title of a note: the first twenty characters of its plain text.
pub fn first_20_chars(markdown_input: &str) -> (r: String)
    ensures
        r@ == truncated(plain_text(markdown_events_strikethrough(markdown_input@)), 20),
{
    render_preview(markdown_input, 20)
}

} // verus!

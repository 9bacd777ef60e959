//! TTML lyrics: the decisions that turn the events of a TTML document into
//! lyric lines (paragraphs, timed spans, inline and sidecar translations,
//! background vocals, duet agents).
//!
//! [`read_ttml_events`] reads a document into [`XmlEvent`]s with the XML
//! reader of [`crate::xml`] (the clock values of `begin` and `end` are left
//! to the caller); [`TtmlParser`] consumes the timed events one by one, and
//! [`TtmlParser::finish`] gives the lines. [`looks_like_ttml`] sniffs a text
//! for a TTML root.
use vstd::prelude::*;

use crate::lyrics::{
    lines_view, max_int, min_int, opt_text, sort_by_start, sort_lines_by_start, words_view,
    BackgroundModel, BackgroundVocal, LineModel, LyricLine, LyricWord, LyricsError, WordModel,
};
use crate::text::{
    chars_equal, chars_equal_str, chars_of, is_white_space, push_all, string_from_chars,
    sub_chars, trim, trimmed, white_space,
};
use crate::xml::{
    lossy_text, raw_attributes_view, text_or_empty, utf8_lossy, utf8_or_empty, xml_read_at,
    xml_read_event, xml_reader, xml_reader_position, xml_reader_text, XmlRead, XmlReadModel,
};

verus! {

/// One attribute of an XML element: its qualified name and its raw value.
pub struct XmlAttribute {
    pub key: String,
    pub value: String,
}

/// An XML start or empty element: its qualified name, its attributes, and its
/// `begin` and `end` attributes read as clock times in milliseconds.
pub struct XmlElement {
    pub name: String,
    pub attributes: Vec<XmlAttribute>,
    pub begin_ms: Option<u64>,
    pub end_ms: Option<u64>,
}

/// The events of an XML document that TTML reading looks at.
pub enum XmlEvent {
    /// An opening tag.
    Start(XmlElement),
    /// A self-closing tag.
    Empty(XmlElement),
    /// Character data (text or CDATA), unescaped.
    Text(String),
    /// A closing tag with its qualified name.
    End(String),
}

/// The mathematical value of an element.
pub struct ElementModel {
    pub name: Seq<char>,
    pub attributes: Seq<(Seq<char>, Seq<char>)>,
    pub begin_ms: Option<int>,
    pub end_ms: Option<int>,
}

/// The mathematical value of an event.
pub enum EventModel {
    Start(ElementModel),
    Empty(ElementModel),
    Text(Seq<char>),
    End(Seq<char>),
}

/// An optional time as a mathematical integer.
pub open spec fn opt_ms(o: Option<u64>) -> Option<int> {
    match o {
        Some(v) => Some(v as int),
        None => None,
    }
}

impl View for XmlElement {
    type V = ElementModel;

    open spec fn view(&self) -> ElementModel {
        ElementModel {
            name: self.name@,
            attributes: self.attributes@.map_values(|a: XmlAttribute| (a.key@, a.value@)),
            begin_ms: opt_ms(self.begin_ms),
            end_ms: opt_ms(self.end_ms),
        }
    }
}

impl View for XmlEvent {
    type V = EventModel;

    open spec fn view(&self) -> EventModel {
        match self {
            XmlEvent::Start(e) => EventModel::Start(e@),
            XmlEvent::Empty(e) => EventModel::Empty(e@),
            XmlEvent::Text(t) => EventModel::Text(t@),
            XmlEvent::End(n) => EventModel::End(n@),
        }
    }
}

// ---------------------------------------------------------------------------
// Names and attributes
/// The last index before `n` that holds `c`.
pub open spec fn rfind_char_before(s: Seq<char>, c: char, n: int) -> Option<int>
    decreases n,
{
    if n <= 0 || n > s.len() {
        None
    } else if s[n - 1] == c {
        Some(n - 1)
    } else {
        rfind_char_before(s, c, n - 1)
    }
}

/// The local part of a qualified XML name: what follows its last colon.
pub open spec fn local_part(name: Seq<char>) -> Seq<char> {
    match rfind_char_before(name, ':', name.len() as int) {
        None => name,
        Some(i) => name.subrange(i + 1, name.len() as int),
    }
}

/// The value of the first attribute (from `from` on) whose local name is `wanted`.
pub open spec fn attr_from(attrs: Seq<(Seq<char>, Seq<char>)>, wanted: Seq<char>, from: int) -> Option<
    Seq<char>,
>
    decreases attrs.len() - from,
{
    if from < 0 || from >= attrs.len() {
        None
    } else if local_part(attrs[from].0) == wanted {
        Some(attrs[from].1)
    } else {
        attr_from(attrs, wanted, from + 1)
    }
}

/// The value of an element's attribute with local name `wanted`.
pub open spec fn attr(e: ElementModel, wanted: Seq<char>) -> Option<Seq<char>> {
    attr_from(e.attributes, wanted, 0)
}

pub proof fn lemma_rfind_bounds(s: Seq<char>, c: char, n: int)
    ensures
        rfind_char_before(s, c, n) matches Some(i) ==> 0 <= i < n <= s.len(),
    decreases n,
{
    if n > 0 && n <= s.len() && s[n - 1] != c {
        lemma_rfind_bounds(s, c, n - 1);
    }
}

/// The local part of a qualified XML name: what follows its last colon.
pub fn local_name(name: &Vec<char>) -> (r: Vec<char>)
    ensures
        r@ == local_part(name@),
{
    let mut n: usize = name.len();
    while n > 0
        invariant
            n <= name.len(),
            rfind_char_before(name@, ':', name@.len() as int) == rfind_char_before(
                name@,
                ':',
                n as int,
            ),
        decreases n,
    {
        if name[n - 1] == ':' {
            return sub_chars(name, n, name.len());
        }
        n = n - 1;
    }
    assert(name@.subrange(0, name@.len() as int) == name@);
    sub_chars(name, 0, name.len())
}

/// The value of the first attribute of `attributes` whose local name is `wanted`.
pub fn xml_attribute(attributes: &Vec<XmlAttribute>, wanted: &str) -> (r: Option<String>)
    ensures
        match r {
            Some(v) => attr_from(
                attributes@.map_values(|a: XmlAttribute| (a.key@, a.value@)),
                wanted@,
                0,
            ) == Some(v@),
            None => attr_from(
                attributes@.map_values(|a: XmlAttribute| (a.key@, a.value@)),
                wanted@,
                0,
            ) is None,
        },
{
    let ghost attrs = attributes@.map_values(|a: XmlAttribute| (a.key@, a.value@));
    let want = chars_of(wanted);
    let mut i: usize = 0;
    while i < attributes.len()
        invariant
            i <= attributes.len(),
            attrs == attributes@.map_values(|a: XmlAttribute| (a.key@, a.value@)),
            want@ == wanted@,
            attr_from(attrs, wanted@, 0) == attr_from(attrs, wanted@, i as int),
        decreases attributes.len() - i,
    {
        let key = chars_of(attributes[i].key.as_str());
        let local = local_name(&key);
        assert(attrs[i as int] == (attributes@[i as int].key@, attributes@[i as int].value@));
        if chars_equal(&local, &want) {
            return Some(attributes[i].value.clone());
        }
        i = i + 1;
    }
    None
}

fn attr_chars(e: &XmlElement, wanted: &str) -> (r: Option<Vec<char>>)
    ensures
        opt_chars(r) == attr(e@, wanted@),
{
    match xml_attribute(&e.attributes, wanted) {
        Some(v) => Some(chars_of(v.as_str())),
        None => None,
    }
}

/// Whether `e`'s attribute `wanted` is present and spells `value`.
fn attr_is(e: &XmlElement, wanted: &str, value: &str) -> (b: bool)
    ensures
        b == (attr(e@, wanted@) == Some(value@)),
{
    match attr_chars(e, wanted) {
        Some(v) => chars_equal_str(&v, value),
        None => false,
    }
}

/// The characters of an optional character list.
pub open spec fn opt_chars(o: Option<Vec<char>>) -> Option<Seq<char>> {
    match o {
        Some(v) => Some(v@),
        None => None,
    }
}

// ---------------------------------------------------------------------------
// Text fragments
/// Whether `raw` holds a line feed, carriage return or tab.
pub open spec fn has_break(raw: Seq<char>) -> bool {
    exists|i: int| 0 <= i < raw.len() && (raw[i] == '\n' || raw[i] == '\r' || raw[i] == '\t')
}

/// Collapses runs of white space into one space and drops leading white space.
pub open spec fn collapse_from(raw: Seq<char>, i: int, out: Seq<char>, pending: bool) -> Seq<char>
    decreases raw.len() - i,
{
    if i < 0 || i >= raw.len() {
        if pending && out.len() > 0 {
            out.push(' ')
        } else {
            out
        }
    } else if is_white_space(raw[i]) {
        collapse_from(raw, i + 1, out, true)
    } else {
        let spaced = if pending && out.len() > 0 {
            out.push(' ')
        } else {
            out
        };
        collapse_from(raw, i + 1, spaced.push(raw[i]), false)
    }
}

/// A text fragment as it enters a line: white-space-only text is one space,
/// or nothing when it holds a line break or tab; other text has its white
/// space runs collapsed into single spaces and its leading white space dropped.
pub open spec fn normalized_fragment(raw: Seq<char>) -> Seq<char> {
    if trim(raw).len() == 0 {
        if has_break(raw) {
            Seq::<char>::empty()
        } else {
            seq![' ']
        }
    } else {
        collapse_from(raw, 0, Seq::<char>::empty(), false)
    }
}

/// A text fragment with its white space runs collapsed (see `normalized_fragment`).
pub fn normalize_fragment(raw: &Vec<char>) -> (r: Vec<char>)
    ensures
        r@ == normalized_fragment(raw@),
{
    let t = trimmed(raw);
    if t.len() == 0 {
        let mut i: usize = 0;
        while i < raw.len()
            invariant
                i <= raw.len(),
                t@ == trim(raw@),
                t@.len() == 0,
                forall|k: int| 0 <= k < i ==> !(raw@[k] == '\n' || raw@[k] == '\r' || raw@[k] == '\t'),
            decreases raw.len() - i,
        {
            if raw[i] == '\n' || raw[i] == '\r' || raw[i] == '\t' {
                assert(has_break(raw@)) by {
                    assert(0 <= i < raw@.len() && (raw@[i as int] == '\n' || raw@[i as int] == '\r'
                        || raw@[i as int] == '\t'));
                }
                return Vec::new();
            }
            i = i + 1;
        }
        let mut space: Vec<char> = Vec::new();
        space.push(' ');
        assert(space@ =~= seq![' ']);
        return space;
    }
    let mut out: Vec<char> = Vec::new();
    let mut pending = false;
    let mut i: usize = 0;
    while i < raw.len()
        invariant
            i <= raw.len(),
            collapse_from(raw@, 0, Seq::<char>::empty(), false) == collapse_from(
                raw@,
                i as int,
                out@,
                pending,
            ),
        decreases raw.len() - i,
    {
        let c = raw[i];
        if white_space(c) {
            pending = true;
        } else {
            if pending && out.len() > 0 {
                out.push(' ');
            }
            out.push(c);
            pending = false;
        }
        i = i + 1;
    }
    if pending && out.len() > 0 {
        out.push(' ');
    }
    out
}

/// The number of UTF-8 bytes that encode `c`.
pub open spec fn utf8_len(c: char) -> int {
    if (c as u32) < 0x80 {
        1
    } else if (c as u32) < 0x800 {
        2
    } else if (c as u32) < 0x10000 {
        3
    } else {
        4
    }
}

/// How many bytes encode `c` in UTF-8.
pub fn utf8_len_exec(c: char) -> (n: usize)
    ensures
        n as int == utf8_len(c),
        1 <= n <= 4,
{
    let code = c as u32;
    if code < 0x80 {
        1
    } else if code < 0x800 {
        2
    } else if code < 0x10000 {
        3
    } else {
        4
    }
}

/// The UTF-8 length in bytes of a text.
pub open spec fn text_bytes(s: Seq<char>) -> int
    decreases s.len(),
{
    if s.len() == 0 {
        0
    } else {
        text_bytes(s.drop_last()) + utf8_len(s.last())
    }
}

/// The UTF-8 length in bytes of all word texts together.
pub open spec fn words_bytes(words: Seq<WordModel>) -> int
    decreases words.len(),
{
    if words.len() == 0 {
        0
    } else {
        words_bytes(words.drop_last()) + text_bytes(words.last().text)
    }
}

/// How many characters the word texts hold together.
pub open spec fn words_chars(words: Seq<WordModel>) -> int
    decreases words.len(),
{
    if words.len() == 0 {
        0
    } else {
        words_chars(words.drop_last()) + words.last().text.len() + 1
    }
}

/// Shortens the words from the end, one character at a time (dropping words
/// that run empty), until their text takes no more UTF-8 bytes than `budget`.
pub open spec fn trim_words(words: Seq<WordModel>, budget: int) -> Seq<WordModel>
    decreases words_chars(words),
{
    if words_bytes(words) <= budget || words.len() == 0 {
        words
    } else {
        let last = words.last();
        if last.text.len() == 0 {
            proof {
                lemma_words_chars_nonneg(words.drop_last());
            }
            trim_words(words.drop_last(), budget)
        } else {
            proof {
                lemma_words_chars_shorter(words);
                lemma_words_chars_nonneg(words.drop_last().push(
                    WordModel { start_ms: last.start_ms, end_ms: last.end_ms, text: last.text.drop_last() },
                ));
            }
            trim_words(
                words.drop_last().push(
                    WordModel {
                        start_ms: last.start_ms,
                        end_ms: last.end_ms,
                        text: last.text.drop_last(),
                    },
                ),
                budget,
            )
        }
    }
}

pub proof fn lemma_words_chars_nonneg(words: Seq<WordModel>)
    ensures
        words_chars(words) >= 0,
    decreases words.len(),
{
    if words.len() > 0 {
        lemma_words_chars_nonneg(words.drop_last());
    }
}

pub proof fn lemma_words_chars_shorter(words: Seq<WordModel>)
    requires
        words.len() > 0,
        words.last().text.len() > 0,
    ensures
        ({
            let last = words.last();
            let shorter = words.drop_last().push(
                WordModel { start_ms: last.start_ms, end_ms: last.end_ms, text: last.text.drop_last() },
            );
            words_chars(shorter) < words_chars(words)
        }),
{
    let last = words.last();
    let shorter = words.drop_last().push(
        WordModel { start_ms: last.start_ms, end_ms: last.end_ms, text: last.text.drop_last() },
    );
    assert(shorter.drop_last() == words.drop_last());
}

} // verus!

verus! {

// ---------------------------------------------------------------------------
// The reading state
/// A paragraph (`<p>`) being read.
pub struct LineBuilderModel {
    pub id: Option<Seq<char>>,
    pub agent_id: Option<Seq<char>>,
    pub start_ms: Option<int>,
    pub end_ms: Option<int>,
    pub text: Seq<char>,
    pub translation: Option<Seq<char>>,
    pub words: Seq<WordModel>,
    pub background_text: Seq<char>,
    pub background_translation: Option<Seq<char>>,
    pub background_words: Seq<WordModel>,
}

/// An open `<span>` inside a paragraph.
pub struct SpanModel {
    pub begin_ms: Option<int>,
    pub end_ms: Option<int>,
    pub text: Seq<char>,
    pub ignored: bool,
    pub translation: bool,
    pub background: bool,
    pub has_child: bool,
}

/// A translation given outside the paragraphs, for the line with key `key`.
pub struct SidecarModel {
    pub key: Seq<char>,
    pub text: Seq<char>,
    pub background_text: Seq<char>,
}

/// Everything that reading a TTML document keeps track of. `overflow` records
/// that the millisecond or depth arithmetic left its integer range.
pub struct TtmlState {
    pub current_line: Option<LineBuilderModel>,
    pub spans: Seq<SpanModel>,
    pub lines: Seq<LineModel>,
    pub sidecar: Seq<SidecarModel>,
    pub agents: Seq<(Seq<char>, Seq<char>)>,
    pub translation_depth: int,
    pub sidecar_target: Option<Seq<char>>,
    pub sidecar_text: Seq<char>,
    pub sidecar_background_depth: int,
    pub sidecar_background_text: Seq<char>,
    pub overflow: bool,
}

/// The reading state before any event.
pub open spec fn initial_state() -> TtmlState {
    TtmlState {
        current_line: None,
        spans: Seq::empty(),
        lines: Seq::empty(),
        sidecar: Seq::empty(),
        agents: Seq::empty(),
        translation_depth: 0,
        sidecar_target: None,
        sidecar_text: Seq::empty(),
        sidecar_background_depth: 0,
        sidecar_background_text: Seq::empty(),
        overflow: false,
    }
}

/// The last sidecar entry for `key` (a later entry replaces an earlier one).
pub open spec fn sidecar_get(entries: Seq<SidecarModel>, key: Seq<char>) -> Option<SidecarModel>
    decreases entries.len(),
{
    if entries.len() == 0 {
        None
    } else if entries.last().key == key {
        Some(entries.last())
    } else {
        sidecar_get(entries.drop_last(), key)
    }
}

/// The last declared type of agent `id`.
pub open spec fn agent_kind(agents: Seq<(Seq<char>, Seq<char>)>, id: Seq<char>) -> Option<Seq<char>>
    decreases agents.len(),
{
    if agents.len() == 0 {
        None
    } else if agents.last().0 == id {
        Some(agents.last().1)
    } else {
        agent_kind(agents.drop_last(), id)
    }
}

/// The earliest start among the words.
pub open spec fn min_word_start(words: Seq<WordModel>) -> Option<int>
    decreases words.len(),
{
    if words.len() == 0 {
        None
    } else {
        match min_word_start(words.drop_last()) {
            None => Some(words.last().start_ms),
            Some(m) => Some(min_int(m, words.last().start_ms)),
        }
    }
}

/// The line that an opening paragraph starts.
pub open spec fn new_builder(e: ElementModel) -> LineBuilderModel {
    LineBuilderModel {
        id: attr(e, "key"@),
        agent_id: attr(e, "agent"@),
        start_ms: e.begin_ms,
        end_ms: e.end_ms,
        text: Seq::empty(),
        translation: None,
        words: Seq::empty(),
        background_text: Seq::empty(),
        background_translation: None,
        background_words: Seq::empty(),
    }
}

/// Where a finished paragraph starts: its `begin`, else its earliest word, else 0.
pub open spec fn builder_start(b: LineBuilderModel) -> int {
    match b.start_ms {
        Some(s) => s,
        None => match min_word_start(b.words) {
            Some(s) => s,
            None => 0,
        },
    }
}

/// Where a finished paragraph ends: its `end`, else its latest word end, else
/// five seconds after its start; at least one millisecond after its start.
pub open spec fn builder_end(b: LineBuilderModel) -> int {
    let start = builder_start(b);
    let end = match b.end_ms {
        Some(e) => e,
        None => match crate::lrc::max_word_end(b.words) {
            Some(e) => e,
            None => start + 5000,
        },
    };
    max_int(end, start + 1)
}

/// The sidecar entry of a paragraph, found by its key.
pub open spec fn builder_sidecar(b: LineBuilderModel, sidecar: Seq<SidecarModel>) -> Option<
    SidecarModel,
> {
    match b.id {
        Some(id) => sidecar_get(sidecar, id),
        None => None,
    }
}

/// The background vocal text of a paragraph: its own, or else its sidecar's.
pub open spec fn builder_background_text(b: LineBuilderModel, sidecar: Seq<SidecarModel>) -> Seq<
    char,
> {
    if trim(b.background_text).len() == 0 {
        match builder_sidecar(b, sidecar) {
            Some(en) => en.background_text,
            None => Seq::empty(),
        }
    } else {
        b.background_text
    }
}

/// When a paragraph's background vocal starts: its first word, else the line.
pub open spec fn background_start(b: LineBuilderModel) -> int {
    match min_word_start(b.background_words) {
        Some(s) => s,
        None => builder_start(b),
    }
}

/// The line that a finished paragraph gives, if it has text.
pub open spec fn finalize_line(b: LineBuilderModel, sidecar: Seq<SidecarModel>) -> Option<LineModel> {
    let text = trim(b.text);
    if text.len() == 0 {
        None
    } else {
        let start = builder_start(b);
        let end = builder_end(b);
        let entry = builder_sidecar(b, sidecar);
        let translation = match b.translation {
            Some(t) => Some(t),
            None => match entry {
                Some(en) => if trim(en.text).len() > 0 {
                    Some(en.text)
                } else {
                    None
                },
                None => None,
            },
        };
        let bg_text = builder_background_text(b, sidecar);
        let words = trim_words(
            if b.words.len() == 0 {
                seq![WordModel { start_ms: start, end_ms: end, text }]
            } else {
                b.words
            },
            text_bytes(text),
        );
        let background = if trim(bg_text).len() == 0 {
            None
        } else {
            let bs = background_start(b);
            let be = max_int(
                match crate::lrc::max_word_end(b.background_words) {
                    Some(e) => e,
                    None => end,
                },
                bs + 1,
            );
            Some(
                BackgroundModel {
                    start_ms: bs,
                    end_ms: be,
                    text: trim(bg_text),
                    translation: b.background_translation,
                    words: trim_words(b.background_words, text_bytes(bg_text)),
                },
            )
        };
        Some(
            LineModel {
                start_ms: start,
                end_ms: end,
                text,
                translation,
                agent_id: b.agent_id,
                is_duet: false,
                is_background: false,
                background_vocal: background,
                words,
            },
        )
    }
}

/// Whether finishing the paragraph leaves the `u64` range: its start plus five
/// seconds, or its background vocal's start plus one millisecond.
pub open spec fn finalize_overflows(b: LineBuilderModel, sidecar: Seq<SidecarModel>) -> bool {
    trim(b.text).len() > 0 && (builder_start(b) + 5000 > u64::MAX || (trim(
        builder_background_text(b, sidecar),
    ).len() > 0 && background_start(b) + 1 > u64::MAX))
}

/// The agents with an agent element's id and type added.
pub open spec fn add_agent(agents: Seq<(Seq<char>, Seq<char>)>, e: ElementModel) -> Seq<
    (Seq<char>, Seq<char>),
> {
    match (attr(e, "id"@), attr(e, "type"@)) {
        (Some(i), Some(t)) => agents.push((i, t)),
        _ => agents,
    }
}

/// The open spans with an opening span added.
pub open spec fn push_span(spans: Seq<SpanModel>, e: ElementModel) -> Seq<SpanModel> {
    let has_parent = spans.len() > 0;
    let p_ignored = has_parent && spans.last().ignored;
    let p_background = has_parent && spans.last().background;
    let p_translation = has_parent && spans.last().translation;
    let role = attr(e, "role"@);
    let marked = if has_parent {
        spans.update(spans.len() - 1, SpanModel { has_child: true, ..spans.last() })
    } else {
        spans
    };
    marked.push(
        SpanModel {
            begin_ms: e.begin_ms,
            end_ms: e.end_ms,
            text: Seq::empty(),
            ignored: p_ignored || role == Some("x-bg"@),
            translation: p_translation || role == Some("x-translation"@),
            background: p_background || role == Some("x-bg"@),
            has_child: false,
        },
    )
}

/// An opening tag.
pub open spec fn start_step(s: TtmlState, e: ElementModel) -> TtmlState {
    let name = local_part(e.name);
    let no_line = s.current_line is None;
    let opens_translation = no_line && name == "translation"@;
    let s1 = TtmlState {
        translation_depth: if opens_translation {
            s.translation_depth + 1
        } else {
            s.translation_depth
        },
        agents: if no_line && name == "agent"@ {
            add_agent(s.agents, e)
        } else {
            s.agents
        },
        overflow: s.overflow || (opens_translation && s.translation_depth + 1 > usize::MAX),
        ..s
    };
    let s2 = if no_line && name == "text"@ && s1.translation_depth > 0 {
        TtmlState {
            sidecar_target: attr(e, "for"@),
            sidecar_text: Seq::empty(),
            sidecar_background_text: Seq::empty(),
            sidecar_background_depth: 0,
            ..s1
        }
    } else {
        s1
    };
    let s3 = if no_line && s2.sidecar_target is Some && name == "span"@ && attr(e, "role"@) == Some(
        "x-bg"@,
    ) {
        TtmlState {
            sidecar_background_depth: s2.sidecar_background_depth + 1,
            overflow: s2.overflow || s2.sidecar_background_depth + 1 > usize::MAX,
            ..s2
        }
    } else {
        s2
    };
    if name == "p"@ && no_line {
        TtmlState { current_line: Some(new_builder(e)), ..s3 }
    } else if name == "span"@ && !no_line {
        TtmlState { spans: push_span(s3.spans, e), ..s3 }
    } else {
        s3
    }
}

/// The lines with a finished line added, if there is one.
pub open spec fn push_finalized(lines: Seq<LineModel>, line: Option<LineModel>) -> Seq<LineModel> {
    match line {
        Some(l) => lines.push(l),
        None => lines,
    }
}

/// A self-closing tag.
pub open spec fn empty_step(s: TtmlState, e: ElementModel) -> TtmlState {
    let name = local_part(e.name);
    let no_line = s.current_line is None;
    let s1 = TtmlState {
        agents: if no_line && name == "agent"@ {
            add_agent(s.agents, e)
        } else {
            s.agents
        },
        ..s
    };
    if name == "p"@ && no_line {
        let b = new_builder(e);
        TtmlState {
            lines: push_finalized(s1.lines, finalize_line(b, s1.sidecar)),
            overflow: s1.overflow || finalize_overflows(b, s1.sidecar),
            ..s1
        }
    } else {
        s1
    }
}

/// The words with a fragment appended to the last one.
pub open spec fn append_to_last_word(words: Seq<WordModel>, f: Seq<char>) -> Seq<WordModel> {
    words.update(
        words.len() - 1,
        WordModel {
            start_ms: words.last().start_ms,
            end_ms: words.last().end_ms,
            text: words.last().text + f,
        },
    )
}

/// Character data.
pub open spec fn text_step(s: TtmlState, raw: Seq<char>) -> TtmlState {
    let f = normalized_fragment(raw);
    if f.len() == 0 {
        s
    } else {
        let s1 = if s.sidecar_target is Some {
            if s.sidecar_background_depth > 0 {
                TtmlState { sidecar_background_text: s.sidecar_background_text + f, ..s }
            } else {
                TtmlState { sidecar_text: s.sidecar_text + f, ..s }
            }
        } else {
            s
        };
        if s1.spans.len() > 0 {
            let last = s1.spans.last();
            TtmlState {
                spans: s1.spans.update(s1.spans.len() - 1, SpanModel { text: last.text + f, ..last }),
                ..s1
            }
        } else {
            match s1.current_line {
                Some(b) => {
                    let b2 = if crate::text::all_white_space(f) && b.words.len() > 0 {
                        LineBuilderModel {
                            words: append_to_last_word(b.words, f),
                            text: b.text + f,
                            ..b
                        }
                    } else {
                        LineBuilderModel { text: b.text + f, ..b }
                    };
                    TtmlState { current_line: Some(b2), ..s1 }
                },
                None => s1,
            }
        }
    }
}

/// Where the text of a closed top-level span goes in its paragraph.
pub open spec fn attach_span_text(b: LineBuilderModel, span: SpanModel) -> LineBuilderModel {
    if span.background {
        if span.translation {
            if trim(span.text).len() > 0 {
                LineBuilderModel { background_translation: Some(trim(span.text)), ..b }
            } else {
                b
            }
        } else {
            LineBuilderModel { background_text: b.background_text + span.text, ..b }
        }
    } else if span.translation {
        if trim(span.text).len() > 0 {
            LineBuilderModel { translation: Some(trim(span.text)), ..b }
        } else {
            b
        }
    } else if !span.ignored {
        LineBuilderModel { text: b.text + span.text, ..b }
    } else {
        b
    }
}

/// Whether a closed span is a timed leaf with text: it becomes a word.
pub open spec fn span_is_word(span: SpanModel) -> bool {
    !span.translation && !span.has_child && span.begin_ms is Some && span.end_ms is Some && trim(
        span.text,
    ).len() > 0
}

/// A line with a closed timed span added as a word.
pub open spec fn add_span_word(b: LineBuilderModel, span: SpanModel) -> LineBuilderModel {
    let st = span.begin_ms.unwrap();
    let word = WordModel {
        start_ms: st,
        end_ms: max_int(span.end_ms.unwrap(), st + 1),
        text: span.text,
    };
    if span.background {
        LineBuilderModel { background_words: b.background_words.push(word), ..b }
    } else if !span.ignored {
        LineBuilderModel { words: b.words.push(word), ..b }
    } else {
        b
    }
}

/// A closing `</span>`.
pub open spec fn close_span(s: TtmlState) -> TtmlState {
    if s.spans.len() == 0 {
        s
    } else {
        let span = s.spans.last();
        let rest = s.spans.drop_last();
        let spans2 = if rest.len() > 0 && (span.background || !span.ignored) {
            rest.update(
                rest.len() - 1,
                SpanModel { text: rest.last().text + span.text, ..rest.last() },
            )
        } else {
            rest
        };
        let line2 = if rest.len() > 0 {
            s.current_line
        } else {
            match s.current_line {
                Some(b) => Some(attach_span_text(b, span)),
                None => None,
            }
        };
        let word = span_is_word(span) && line2 is Some;
        let line3 = if word {
            Some(add_span_word(line2.unwrap(), span))
        } else {
            line2
        };
        TtmlState {
            spans: spans2,
            current_line: line3,
            overflow: s.overflow || (word && span.begin_ms.unwrap() + 1 > u64::MAX),
            ..s
        }
    }
}

/// A closing `</p>`.
pub open spec fn close_paragraph(s: TtmlState) -> TtmlState {
    match s.current_line {
        Some(b) => TtmlState {
            spans: Seq::empty(),
            current_line: None,
            lines: push_finalized(s.lines, finalize_line(b, s.sidecar)),
            overflow: s.overflow || finalize_overflows(b, s.sidecar),
            ..s
        },
        None => TtmlState { spans: Seq::empty(), ..s },
    }
}

/// A closing tag.
pub open spec fn end_step(s: TtmlState, raw_name: Seq<char>) -> TtmlState {
    let name = local_part(raw_name);
    let no_line = s.current_line is None;
    let s1 = if name == "text"@ && no_line {
        let sidecar = match s.sidecar_target {
            Some(t) => {
                let entry = SidecarModel {
                    key: t,
                    text: trim(s.sidecar_text),
                    background_text: trim(s.sidecar_background_text),
                };
                if entry.text.len() > 0 || entry.background_text.len() > 0 {
                    s.sidecar.push(entry)
                } else {
                    s.sidecar
                }
            },
            None => s.sidecar,
        };
        TtmlState {
            sidecar,
            sidecar_target: None,
            sidecar_text: Seq::empty(),
            sidecar_background_text: Seq::empty(),
            sidecar_background_depth: 0,
            ..s
        }
    } else {
        s
    };
    let s2 = if name == "span"@ && no_line && s1.sidecar_target is Some
        && s1.sidecar_background_depth > 0 {
        TtmlState { sidecar_background_depth: s1.sidecar_background_depth - 1, ..s1 }
    } else {
        s1
    };
    let s3 = if name == "translation"@ && no_line {
        TtmlState {
            translation_depth: crate::lyrics::sat_sub(s2.translation_depth, 1),
            ..s2
        }
    } else {
        s2
    };
    if name == "span"@ {
        close_span(s3)
    } else if name == "p"@ {
        close_paragraph(s3)
    } else {
        s3
    }
}

/// One event; once the arithmetic has overflowed, nothing changes any more.
pub open spec fn ttml_step(s: TtmlState, ev: EventModel) -> TtmlState {
    if s.overflow {
        s
    } else {
        match ev {
            EventModel::Start(e) => start_step(s, e),
            EventModel::Empty(e) => empty_step(s, e),
            EventModel::Text(t) => text_step(s, t),
            EventModel::End(n) => end_step(s, n),
        }
    }
}

/// The state after reading the events in order.
pub open spec fn ttml_run(events: Seq<EventModel>) -> TtmlState
    decreases events.len(),
{
    if events.len() == 0 {
        initial_state()
    } else {
        ttml_step(ttml_run(events.drop_last()), events.last())
    }
}

/// Marks duet lines: a line sings opposite the previous one when its agent
/// (`v1` by default) differs from the previous line's; the first line is a
/// duet line when its agent is declared of type `other`.
pub open spec fn assign_duets_from(
    lines: Seq<LineModel>,
    agents: Seq<(Seq<char>, Seq<char>)>,
    i: int,
    last_agent: Option<Seq<char>>,
    last_duet: bool,
) -> Seq<LineModel>
    decreases lines.len() - i,
{
    if i < 0 || i >= lines.len() {
        lines
    } else {
        let agent = match lines[i].agent_id {
            Some(a) => a,
            None => "v1"@,
        };
        let is_other = agent_kind(agents, agent) == Some("other"@);
        let duet = match last_agent {
            None => is_other,
            Some(a) => if a == agent {
                last_duet
            } else {
                !last_duet
            },
        };
        assign_duets_from(
            lines.update(i, LineModel { is_duet: duet, ..lines[i] }),
            agents,
            i + 1,
            Some(agent),
            duet,
        )
    }
}

/// Gives a line that does not end after it starts the next line's start as its end.
pub open spec fn fix_ttml_ends(lines: Seq<LineModel>) -> Seq<LineModel> {
    Seq::new(
        lines.len(),
        |i: int|
            if i + 1 < lines.len() && lines[i].end_ms <= lines[i].start_ms {
                LineModel {
                    end_ms: max_int(lines[i + 1].start_ms, lines[i].start_ms + 1),
                    ..lines[i]
                }
            } else {
                lines[i]
            },
    )
}

/// The lines that a TTML document gives, in start order; `None` where it has no paragraph with text.
pub open spec fn ttml_finish(s: TtmlState) -> Option<Seq<LineModel>> {
    if s.lines.len() == 0 {
        None
    } else {
        Some(fix_ttml_ends(assign_duets_from(sort_by_start(s.lines), s.agents, 0, None, false)))
    }
}

/// The lines that a TTML document's events give.
pub open spec fn ttml_lines(events: Seq<EventModel>) -> Option<Seq<LineModel>> {
    ttml_finish(ttml_run(events))
}

} // verus!

verus! {

// ---------------------------------------------------------------------------
// The executable reading state
struct TimedText {
    start_ms: u64,
    end_ms: u64,
    text: Vec<char>,
}

impl View for TimedText {
    type V = WordModel;

    closed spec fn view(&self) -> WordModel {
        WordModel { start_ms: self.start_ms as int, end_ms: self.end_ms as int, text: self.text@ }
    }
}

spec fn timed_view(words: Seq<TimedText>) -> Seq<WordModel> {
    words.map_values(|w: TimedText| w@)
}

struct LineBuilder {
    id: Option<Vec<char>>,
    agent_id: Option<Vec<char>>,
    start_ms: Option<u64>,
    end_ms: Option<u64>,
    text: Vec<char>,
    translation: Option<Vec<char>>,
    words: Vec<TimedText>,
    background_text: Vec<char>,
    background_translation: Option<Vec<char>>,
    background_words: Vec<TimedText>,
}

impl View for LineBuilder {
    type V = LineBuilderModel;

    closed spec fn view(&self) -> LineBuilderModel {
        LineBuilderModel {
            id: opt_chars(self.id),
            agent_id: opt_chars(self.agent_id),
            start_ms: opt_ms(self.start_ms),
            end_ms: opt_ms(self.end_ms),
            text: self.text@,
            translation: opt_chars(self.translation),
            words: timed_view(self.words@),
            background_text: self.background_text@,
            background_translation: opt_chars(self.background_translation),
            background_words: timed_view(self.background_words@),
        }
    }
}

struct SpanBuilder {
    begin_ms: Option<u64>,
    end_ms: Option<u64>,
    text: Vec<char>,
    ignored: bool,
    translation: bool,
    background: bool,
    has_child: bool,
}

impl View for SpanBuilder {
    type V = SpanModel;

    closed spec fn view(&self) -> SpanModel {
        SpanModel {
            begin_ms: opt_ms(self.begin_ms),
            end_ms: opt_ms(self.end_ms),
            text: self.text@,
            ignored: self.ignored,
            translation: self.translation,
            background: self.background,
            has_child: self.has_child,
        }
    }
}

spec fn spans_view(spans: Seq<SpanBuilder>) -> Seq<SpanModel> {
    spans.map_values(|s: SpanBuilder| s@)
}

struct SidecarEntry {
    key: Vec<char>,
    text: Vec<char>,
    background_text: Vec<char>,
}

impl View for SidecarEntry {
    type V = SidecarModel;

    closed spec fn view(&self) -> SidecarModel {
        SidecarModel { key: self.key@, text: self.text@, background_text: self.background_text@ }
    }
}

spec fn sidecar_view(entries: Seq<SidecarEntry>) -> Seq<SidecarModel> {
    entries.map_values(|e: SidecarEntry| e@)
}

struct AgentEntry {
    id: Vec<char>,
    kind: Vec<char>,
}

spec fn agents_view(agents: Seq<AgentEntry>) -> Seq<(Seq<char>, Seq<char>)> {
    agents.map_values(|a: AgentEntry| (a.id@, a.kind@))
}

/// The state of reading a TTML document event by event.
pub struct TtmlParser {
    current_line: Option<LineBuilder>,
    spans: Vec<SpanBuilder>,
    lines: Vec<LyricLine>,
    sidecar: Vec<SidecarEntry>,
    agents: Vec<AgentEntry>,
    translation_depth: usize,
    sidecar_target: Option<Vec<char>>,
    sidecar_text: Vec<char>,
    sidecar_background_depth: usize,
    sidecar_background_text: Vec<char>,
    overflow: bool,
}

spec fn opt_builder(o: Option<LineBuilder>) -> Option<LineBuilderModel> {
    match o {
        Some(b) => Some(b@),
        None => None,
    }
}

impl View for TtmlParser {
    type V = TtmlState;

    closed spec fn view(&self) -> TtmlState {
        TtmlState {
            current_line: opt_builder(self.current_line),
            spans: spans_view(self.spans@),
            lines: lines_view(self.lines@),
            sidecar: sidecar_view(self.sidecar@),
            agents: agents_view(self.agents@),
            translation_depth: self.translation_depth as int,
            sidecar_target: opt_chars(self.sidecar_target),
            sidecar_text: self.sidecar_text@,
            sidecar_background_depth: self.sidecar_background_depth as int,
            sidecar_background_text: self.sidecar_background_text@,
            overflow: self.overflow,
        }
    }
}

fn copy_chars(v: &Vec<char>) -> (r: Vec<char>)
    ensures
        r@ == v@,
{
    sub_chars(v, 0, v.len())
}

fn copy_opt_chars(o: &Option<Vec<char>>) -> (r: Option<Vec<char>>)
    ensures
        opt_chars(r) == opt_chars(*o),
{
    match o {
        Some(v) => Some(copy_chars(v)),
        None => None,
    }
}

fn concat_chars(a: &Vec<char>, b: &Vec<char>) -> (r: Vec<char>)
    ensures
        r@ == a@ + b@,
{
    let mut r = copy_chars(a);
    push_all(&mut r, b);
    r
}

fn copy_timed(t: &TimedText) -> (r: TimedText)
    ensures
        r@ == t@,
{
    TimedText { start_ms: t.start_ms, end_ms: t.end_ms, text: copy_chars(&t.text) }
}

fn copy_timed_vec(v: &Vec<TimedText>) -> (r: Vec<TimedText>)
    ensures
        timed_view(r@) == timed_view(v@),
{
    let mut r: Vec<TimedText> = Vec::new();
    let mut i: usize = 0;
    while i < v.len()
        invariant
            i <= v.len(),
            timed_view(r@) == timed_view(v@.take(i as int)),
        decreases v.len() - i,
    {
        let t = copy_timed(&v[i]);
        let ghost prev = r@;
        r.push(t);
        assert(timed_view(r@) =~= timed_view(prev).push(v@[i as int]@));
        assert(v@.take(i + 1) == v@.take(i as int).push(v@[i as int]));
        assert(timed_view(v@.take(i + 1)) =~= timed_view(v@.take(i as int)).push(v@[i as int]@));
        i = i + 1;
    }
    assert(v@.take(v.len() as int) == v@);
    r
}

fn min_start_exec(words: &Vec<TimedText>) -> (r: Option<u64>)
    ensures
        opt_ms(r) == min_word_start(timed_view(words@)),
{
    let ghost wv = timed_view(words@);
    let mut best: Option<u64> = None;
    let mut i: usize = 0;
    while i < words.len()
        invariant
            i <= words.len(),
            wv == timed_view(words@),
            opt_ms(best) == min_word_start(wv.take(i as int)),
        decreases words.len() - i,
    {
        assert(wv.take(i + 1).drop_last() =~= wv.take(i as int));
        assert(wv.take(i + 1).last() == words@[i as int]@);
        let s = words[i].start_ms;
        best = match best {
            None => Some(s),
            Some(b) => Some(if b <= s {
                b
            } else {
                s
            }),
        };
        i = i + 1;
    }
    assert(wv.take(words.len() as int) =~= wv);
    best
}

fn max_end_exec(words: &Vec<TimedText>) -> (r: Option<u64>)
    ensures
        opt_ms(r) == crate::lrc::max_word_end(timed_view(words@)),
{
    let ghost wv = timed_view(words@);
    let mut best: Option<u64> = None;
    let mut i: usize = 0;
    while i < words.len()
        invariant
            i <= words.len(),
            wv == timed_view(words@),
            opt_ms(best) == crate::lrc::max_word_end(wv.take(i as int)),
        decreases words.len() - i,
    {
        assert(wv.take(i + 1).drop_last() =~= wv.take(i as int));
        assert(wv.take(i + 1).last() == words@[i as int]@);
        let e = words[i].end_ms;
        best = match best {
            None => Some(e),
            Some(b) => Some(if b >= e {
                b
            } else {
                e
            }),
        };
        i = i + 1;
    }
    assert(wv.take(words.len() as int) =~= wv);
    best
}

fn text_bytes_exec(s: &Vec<char>) -> (n: u128)
    ensures
        n as int == text_bytes(s@),
        n <= 4 * s.len(),
{
    let mut n: u128 = 0;
    let mut i: usize = 0;
    while i < s.len()
        invariant
            i <= s.len(),
            n as int == text_bytes(s@.take(i as int)),
            n <= 4 * i,
        decreases s.len() - i,
    {
        assert(s@.take(i + 1).drop_last() =~= s@.take(i as int));
        assert(s@.take(i + 1).last() == s@[i as int]);
        n = n + utf8_len_exec(s[i]) as u128;
        i = i + 1;
    }
    assert(s@.take(s.len() as int) =~= s@);
    n
}

/// A value above every byte budget that a text in memory can have.
spec fn bytes_cap() -> int {
    0x1_0000_0000_0000_0000_0000_0000
}

proof fn lemma_text_bytes_nonneg(s: Seq<char>)
    ensures
        text_bytes(s) >= 0,
    decreases s.len(),
{
    if s.len() > 0 {
        lemma_text_bytes_nonneg(s.drop_last());
    }
}

/// The UTF-8 length of all word texts together, or `bytes_cap()` if that is less.
fn capped_words_bytes(words: &Vec<TimedText>) -> (n: u128)
    ensures
        n as int == min_int(words_bytes(timed_view(words@)), bytes_cap()),
{
    let ghost wv = timed_view(words@);
    let mut n: u128 = 0;
    let mut i: usize = 0;
    while i < words.len()
        invariant
            i <= words.len(),
            wv == timed_view(words@),
            n as int == min_int(words_bytes(wv.take(i as int)), bytes_cap()),
        decreases words.len() - i,
    {
        assert(wv.take(i + 1).drop_last() =~= wv.take(i as int));
        assert(wv.take(i + 1).last() == words@[i as int]@);
        let b = text_bytes_exec(&words[i].text);
        proof {
            lemma_text_bytes_nonneg(words@[i as int].text@);
        }
        if n as u128 >= 0x1_0000_0000_0000_0000_0000_0000 - b {
            n = 0x1_0000_0000_0000_0000_0000_0000;
        } else {
            n = n + b;
        }
        i = i + 1;
    }
    assert(wv.take(words.len() as int) =~= wv);
    n
}

fn trim_words_to_text(words: Vec<TimedText>, budget: u128) -> (r: Vec<TimedText>)
    requires
        budget < bytes_cap(),
    ensures
        timed_view(r@) == trim_words(timed_view(words@), budget as int),
{
    let ghost orig = timed_view(words@);
    let mut w = words;
    loop
        invariant
            budget < bytes_cap(),
            orig == timed_view(words@),
            trim_words(orig, budget as int) == trim_words(timed_view(w@), budget as int),
        decreases words_chars(timed_view(w@)),
    {
        let total = capped_words_bytes(&w);
        if total <= budget || w.len() == 0 {
            assert(trim_words(timed_view(w@), budget as int) == timed_view(w@));
            return w;
        }
        let ghost wv = timed_view(w@);
        let mut last = w.pop().unwrap();
        assert(wv.drop_last() =~= timed_view(w@));
        assert(wv.last() == last@);
        if last.text.len() == 0 {
            proof {
                lemma_words_chars_nonneg(wv.drop_last());
            }
            assert(words_chars(wv) == words_chars(wv.drop_last()) + 1);
            assert(trim_words(wv, budget as int) == trim_words(wv.drop_last(), budget as int));
            assert(words_chars(timed_view(w@)) < words_chars(wv));
            proof {
                lemma_words_chars_nonneg(timed_view(w@));
            }
        } else {
            let ghost before = last@;
            last.text.pop();
            assert(last.text@ =~= before.text.drop_last());
            proof {
                lemma_words_chars_shorter(wv);
            }
            let ghost prev = timed_view(w@);
            w.push(last);
            assert(timed_view(w@) =~= prev.push(last@));
            assert(timed_view(w@) == wv.drop_last().push(
                WordModel {
                    start_ms: wv.last().start_ms,
                    end_ms: wv.last().end_ms,
                    text: wv.last().text.drop_last(),
                },
            ));
            assert(trim_words(wv, budget as int) == trim_words(timed_view(w@), budget as int));
            assert(words_chars(timed_view(w@)) < words_chars(wv));
            proof {
                lemma_words_chars_nonneg(timed_view(w@));
            }
        }
    }
}

fn to_lyric_words(words: &Vec<TimedText>) -> (r: Vec<LyricWord>)
    ensures
        words_view(r@) == timed_view(words@),
{
    let mut r: Vec<LyricWord> = Vec::new();
    let mut i: usize = 0;
    while i < words.len()
        invariant
            i <= words.len(),
            words_view(r@) == timed_view(words@.take(i as int)),
        decreases words.len() - i,
    {
        let w = LyricWord {
            start_ms: words[i].start_ms,
            end_ms: words[i].end_ms,
            text: string_from_chars(&words[i].text),
        };
        let ghost prev = r@;
        r.push(w);
        assert(words_view(r@) =~= words_view(prev).push(w@));
        assert(words@.take(i + 1) == words@.take(i as int).push(words@[i as int]));
        assert(timed_view(words@.take(i + 1)) =~= timed_view(words@.take(i as int)).push(
            words@[i as int]@,
        ));
        i = i + 1;
    }
    assert(words@.take(words.len() as int) == words@);
    r
}

fn opt_string(o: &Option<Vec<char>>) -> (r: Option<String>)
    ensures
        crate::lyrics::opt_text(r) == opt_chars(*o),
{
    match o {
        Some(v) => Some(string_from_chars(v)),
        None => None,
    }
}

fn sidecar_lookup(entries: &Vec<SidecarEntry>, key: &Vec<char>) -> (r: Option<usize>)
    ensures
        match r {
            Some(i) => i < entries.len() && sidecar_get(sidecar_view(entries@), key@) == Some(
                entries@[i as int]@,
            ),
            None => sidecar_get(sidecar_view(entries@), key@) is None,
        },
{
    let ghost sv = sidecar_view(entries@);
    let mut n: usize = entries.len();
    assert(sv.take(n as int) =~= sv);
    while n > 0
        invariant
            n <= entries.len(),
            sv == sidecar_view(entries@),
            sidecar_get(sv, key@) == sidecar_get(sv.take(n as int), key@),
        decreases n,
    {
        assert(sv.take(n as int).drop_last() =~= sv.take(n - 1));
        assert(sv.take(n as int).last() == entries@[n - 1]@);
        if chars_equal(&entries[n - 1].key, key) {
            return Some(n - 1);
        }
        n = n - 1;
    }
    None
}

fn agent_lookup(agents: &Vec<AgentEntry>, id: &Vec<char>) -> (r: Option<usize>)
    ensures
        match r {
            Some(i) => i < agents.len() && agent_kind(agents_view(agents@), id@) == Some(
                agents@[i as int].kind@,
            ),
            None => agent_kind(agents_view(agents@), id@) is None,
        },
{
    let ghost av = agents_view(agents@);
    let mut n: usize = agents.len();
    assert(av.take(n as int) =~= av);
    while n > 0
        invariant
            n <= agents.len(),
            av == agents_view(agents@),
            agent_kind(av, id@) == agent_kind(av.take(n as int), id@),
        decreases n,
    {
        assert(av.take(n as int).drop_last() =~= av.take(n - 1));
        assert(av.take(n as int).last() == (agents@[n - 1].id@, agents@[n - 1].kind@));
        if chars_equal(&agents[n - 1].id, id) {
            return Some(n - 1);
        }
        n = n - 1;
    }
    None
}

} // verus!

verus! {

/// The mathematical value of an optional line.
pub open spec fn opt_line(o: Option<LyricLine>) -> Option<LineModel> {
    match o {
        Some(l) => Some(l@),
        None => None,
    }
}

fn finalize_line_exec(b: &LineBuilder, sidecar: &Vec<SidecarEntry>) -> (r: (Option<LyricLine>, bool))
    ensures
        r.1 == finalize_overflows(b@, sidecar_view(sidecar@)),
        !r.1 ==> opt_line(r.0) == finalize_line(b@, sidecar_view(sidecar@)),
        !r.1 ==> (r.0 matches Some(l) ==> l.end_ms > l.start_ms),
{
    let ghost bm = b@;
    let ghost sv = sidecar_view(sidecar@);
    let text = trimmed(&b.text);
    if text.len() == 0 {
        return (None, false);
    }
    let start: u64 = match b.start_ms {
        Some(s) => s,
        None => match min_start_exec(&b.words) {
            Some(s) => s,
            None => 0,
        },
    };
    assert(start as int == builder_start(bm));
    if start > u64::MAX - 5000 {
        return (None, true);
    }
    let fallback_end = start + 5000;
    let end0: u64 = match b.end_ms {
        Some(e) => e,
        None => match max_end_exec(&b.words) {
            Some(e) => e,
            None => fallback_end,
        },
    };
    let end: u64 = if end0 >= start + 1 {
        end0
    } else {
        start + 1
    };
    assert(end as int == builder_end(bm));
    let entry: Option<usize> = match &b.id {
        Some(id) => sidecar_lookup(sidecar, id),
        None => None,
    };
    assert(match entry {
        Some(i) => builder_sidecar(bm, sv) == Some(sidecar@[i as int]@),
        None => builder_sidecar(bm, sv) is None,
    });
    let translation: Option<Vec<char>> = match &b.translation {
        Some(t) => Some(copy_chars(t)),
        None => match entry {
            Some(i) => {
                if !crate::text::is_blank(&sidecar[i].text) {
                    Some(copy_chars(&sidecar[i].text))
                } else {
                    None
                }
            },
            None => None,
        },
    };
    let bg_text: Vec<char> = if crate::text::is_blank(&b.background_text) {
        match entry {
            Some(i) => copy_chars(&sidecar[i].background_text),
            None => Vec::new(),
        }
    } else {
        copy_chars(&b.background_text)
    };
    assert(bg_text@ == builder_background_text(bm, sv));
    let words0: Vec<TimedText> = if b.words.len() == 0 {
        let mut v: Vec<TimedText> = Vec::new();
        v.push(TimedText { start_ms: start, end_ms: end, text: copy_chars(&text) });
        assert(timed_view(v@) =~= seq![WordModel { start_ms: start as int, end_ms: end as int, text: text@ }]);
        v
    } else {
        copy_timed_vec(&b.words)
    };
    let budget = text_bytes_exec(&text);
    let words = trim_words_to_text(words0, budget);
    let background: Option<BackgroundVocal> = if crate::text::is_blank(&bg_text) {
        None
    } else {
        let bs: u64 = match min_start_exec(&b.background_words) {
            Some(s) => s,
            None => start,
        };
        assert(bs as int == background_start(bm));
        if bs == u64::MAX {
            return (None, true);
        }
        let be0: u64 = match max_end_exec(&b.background_words) {
            Some(e) => e,
            None => end,
        };
        let be = if be0 >= bs + 1 {
            be0
        } else {
            bs + 1
        };
        let bg_budget = text_bytes_exec(&bg_text);
        let bg_words = trim_words_to_text(copy_timed_vec(&b.background_words), bg_budget);
        let trimmed_bg = trimmed(&bg_text);
        Some(
            BackgroundVocal {
                start_ms: bs,
                end_ms: be,
                text: string_from_chars(&trimmed_bg),
                translation: opt_string(&b.background_translation),
                words: to_lyric_words(&bg_words),
            },
        )
    };
    let line = LyricLine {
        start_ms: start,
        end_ms: end,
        text: string_from_chars(&text),
        translation: opt_string(&translation),
        agent_id: opt_string(&b.agent_id),
        is_duet: false,
        is_background: false,
        background_vocal: background,
        words: to_lyric_words(&words),
    };
    assert(opt_line(Some(line)) == finalize_line(bm, sv));
    (Some(line), false)
}

/// Whether an executable state stands for a spec state: the same overflow, and
/// the same state while nothing has overflowed.
pub open spec fn agrees(x: TtmlState, y: TtmlState) -> bool {
    x.overflow == y.overflow && (!x.overflow ==> x == y)
}

fn new_builder_exec(e: &XmlElement) -> (b: LineBuilder)
    ensures
        b@ == new_builder(e@),
{
    let b = LineBuilder {
        id: attr_chars(e, "key"),
        agent_id: attr_chars(e, "agent"),
        start_ms: e.begin_ms,
        end_ms: e.end_ms,
        text: Vec::new(),
        translation: None,
        words: Vec::new(),
        background_text: Vec::new(),
        background_translation: None,
        background_words: Vec::new(),
    };
    assert(timed_view(b.words@) =~= Seq::<WordModel>::empty());
    assert(timed_view(b.background_words@) =~= Seq::<WordModel>::empty());
    b
}

fn push_span_exec(spans: Vec<SpanBuilder>, e: &XmlElement) -> (r: Vec<SpanBuilder>)
    ensures
        spans_view(r@) == push_span(spans_view(spans@), e@),
{
    let ghost sv = spans_view(spans@);
    let has_parent = spans.len() > 0;
    let (p_ignored, p_background, p_translation) = if has_parent {
        let last = &spans[spans.len() - 1];
        assert(sv.last() == last@);
        (last.ignored, last.background, last.translation)
    } else {
        (false, false, false)
    };
    let is_bg = attr_is(e, "role", "x-bg");
    let is_tr = attr_is(e, "role", "x-translation");
    let mut sp = spans;
    if has_parent {
        let mut last = sp.pop().unwrap();
        last.has_child = true;
        let ghost prev = spans_view(sp@);
        sp.push(last);
        assert(spans_view(sp@) =~= sv.update(sv.len() - 1, SpanModel { has_child: true, ..sv.last() }));
    }
    let ghost marked = spans_view(sp@);
    sp.push(
        SpanBuilder {
            begin_ms: e.begin_ms,
            end_ms: e.end_ms,
            text: Vec::new(),
            ignored: p_ignored || is_bg,
            translation: p_translation || is_tr,
            background: p_background || is_bg,
            has_child: false,
        },
    );
    assert(spans_view(sp@) =~= push_span(sv, e@));
    sp
}

impl TtmlParser {
    /// A parser that has read nothing yet.
    pub fn new() -> (p: Self)
        ensures
            p@ == initial_state(),
            p.lines_well_formed(),
    {
        let p = TtmlParser {
            current_line: None,
            spans: Vec::new(),
            lines: Vec::new(),
            sidecar: Vec::new(),
            agents: Vec::new(),
            translation_depth: 0,
            sidecar_target: None,
            sidecar_text: Vec::new(),
            sidecar_background_depth: 0,
            sidecar_background_text: Vec::new(),
            overflow: false,
        };
        assert(p@ =~= initial_state()) by {
            assert(spans_view(p.spans@) =~= Seq::<SpanModel>::empty());
            assert(lines_view(p.lines@) =~= Seq::<LineModel>::empty());
            assert(sidecar_view(p.sidecar@) =~= Seq::<SidecarModel>::empty());
            assert(agents_view(p.agents@) =~= Seq::<(Seq<char>, Seq<char>)>::empty());
        }
        p
    }

    /// Every line read so far ends after it starts.
    pub closed spec fn lines_well_formed(&self) -> bool {
        forall|i: int| 0 <= i < self.lines@.len() ==> #[trigger] self.lines@[i].end_ms > self.lines@[i].start_ms
    }

    /// Whether the millisecond or nesting arithmetic has left its integer range
    /// (where reading stops).
    pub fn overflowed(&self) -> (b: bool)
        ensures
            b == self@.overflow,
    {
        self.overflow
    }

    fn start_exec(self, e: &XmlElement) -> (r: Self)
        requires
            self.lines_well_formed(),
        ensures
            agrees(r@, start_step(self@, e@)),
            r.lines_well_formed(),
    {
        let ghost s0 = self@;
        let mut s = self;
        let name_chars = chars_of(e.name.as_str());
        let name = local_name(&name_chars);
        let no_line = s.current_line.is_none();
        let opens_translation = no_line && chars_equal_str(&name, "translation");
        if opens_translation {
            if s.translation_depth == usize::MAX {
                s.overflow = true;
            } else {
                s.translation_depth = s.translation_depth + 1;
            }
        }
        if no_line && chars_equal_str(&name, "agent") {
            match (attr_chars(e, "id"), attr_chars(e, "type")) {
                (Some(i), Some(t)) => {
                    let ghost prev = agents_view(s.agents@);
                    let entry = AgentEntry { id: i, kind: t };
                    let ghost em = (entry.id@, entry.kind@);
                    s.agents.push(entry);
                    assert(agents_view(s.agents@) =~= prev.push(em));
                },
                _ => {},
            }
        }
        if no_line && chars_equal_str(&name, "text") && s.translation_depth > 0 {
            s.sidecar_target = attr_chars(e, "for");
            s.sidecar_text = Vec::new();
            s.sidecar_background_text = Vec::new();
            s.sidecar_background_depth = 0;
        }
        if no_line && s.sidecar_target.is_some() && chars_equal_str(&name, "span") && attr_is(
            e,
            "role",
            "x-bg",
        ) {
            if s.sidecar_background_depth == usize::MAX {
                s.overflow = true;
            } else {
                s.sidecar_background_depth = s.sidecar_background_depth + 1;
            }
        }
        if chars_equal_str(&name, "p") && no_line {
            s.current_line = Some(new_builder_exec(e));
        } else if chars_equal_str(&name, "span") && !no_line {
            let mut spans: Vec<SpanBuilder> = Vec::new();
            std::mem::swap(&mut spans, &mut s.spans);
            s.spans = push_span_exec(spans, e);
        }
        s
    }
}

} // verus!

verus! {

fn attach_span_text_exec(b: LineBuilder, span: &SpanBuilder) -> (r: LineBuilder)
    ensures
        r@ == attach_span_text(b@, span@),
{
    let mut b = b;
    if span.background {
        if span.translation {
            let v = trimmed(&span.text);
            if v.len() > 0 {
                b.background_translation = Some(v);
            }
        } else {
            push_all(&mut b.background_text, &span.text);
        }
    } else if span.translation {
        let v = trimmed(&span.text);
        if v.len() > 0 {
            b.translation = Some(v);
        }
    } else if !span.ignored {
        push_all(&mut b.text, &span.text);
    }
    b
}

fn span_is_word_exec(span: &SpanBuilder) -> (w: bool)
    ensures
        w == span_is_word(span@),
{
    !span.translation && !span.has_child && span.begin_ms.is_some() && span.end_ms.is_some()
        && !crate::text::is_blank(&span.text)
}

fn add_span_word_exec(b: LineBuilder, span: SpanBuilder) -> (r: LineBuilder)
    requires
        span_is_word(span@),
        span@.begin_ms.unwrap() < u64::MAX,
    ensures
        r@ == add_span_word(b@, span@),
{
    let mut b = b;
    let st = span.begin_ms.unwrap();
    let en = span.end_ms.unwrap();
    let word = TimedText {
        start_ms: st,
        end_ms: if en >= st + 1 {
            en
        } else {
            st + 1
        },
        text: span.text,
    };
    let ghost wm = word@;
    if span.background {
        let ghost prev = timed_view(b.background_words@);
        b.background_words.push(word);
        assert(timed_view(b.background_words@) =~= prev.push(wm));
    } else if !span.ignored {
        let ghost prev = timed_view(b.words@);
        b.words.push(word);
        assert(timed_view(b.words@) =~= prev.push(wm));
    }
    b
}

impl TtmlParser {
    fn empty_exec(self, e: &XmlElement) -> (r: Self)
        requires
            self.lines_well_formed(),
        ensures
            agrees(r@, empty_step(self@, e@)),
            r.lines_well_formed(),
    {
        let mut s = self;
        let name_chars = chars_of(e.name.as_str());
        let name = local_name(&name_chars);
        let no_line = s.current_line.is_none();
        if no_line && chars_equal_str(&name, "agent") {
            match (attr_chars(e, "id"), attr_chars(e, "type")) {
                (Some(i), Some(t)) => {
                    let ghost prev = agents_view(s.agents@);
                    let entry = AgentEntry { id: i, kind: t };
                    let ghost em = (entry.id@, entry.kind@);
                    s.agents.push(entry);
                    assert(agents_view(s.agents@) =~= prev.push(em));
                },
                _ => {},
            }
        }
        if chars_equal_str(&name, "p") && no_line {
            let b = new_builder_exec(e);
            let (line, overflow) = finalize_line_exec(&b, &s.sidecar);
            if overflow {
                s.overflow = true;
            } else {
                match line {
                    Some(l) => {
                        let ghost prev = lines_view(s.lines@);
                        let ghost lm = l@;
                        s.lines.push(l);
                        assert(lines_view(s.lines@) =~= prev.push(lm));
                    },
                    None => {},
                }
            }
        }
        s
    }

    /// Reads a text fragment into the open span, line or sidecar entry.
    pub fn append_fragment(self, raw: &String) -> (r: Self)
        requires
            self.lines_well_formed(),
        ensures
            agrees(r@, text_step(self@, raw@)),
            r.lines_well_formed(),
    {
        let ghost s0 = self@;
        let mut s = self;
        let raw_chars = chars_of(raw.as_str());
        let f = normalize_fragment(&raw_chars);
        if f.len() == 0 {
            return s;
        }
        if s.sidecar_target.is_some() {
            if s.sidecar_background_depth > 0 {
                push_all(&mut s.sidecar_background_text, &f);
            } else {
                push_all(&mut s.sidecar_text, &f);
            }
        }
        if s.spans.len() > 0 {
            let ghost sv = spans_view(s.spans@);
            let mut last = s.spans.pop().unwrap();
            assert(sv.last() == last@);
            push_all(&mut last.text, &f);
            let ghost prev = spans_view(s.spans@);
            s.spans.push(last);
            assert(spans_view(s.spans@) =~= sv.update(
                sv.len() - 1,
                SpanModel { text: sv.last().text + f@, ..sv.last() },
            ));
        } else {
            match s.current_line.take() {
                Some(b) => {
                    let mut b = b;
                    let ghost bm = b@;
                    let ws = crate::text::all_white_space_exec(&f);
                    if ws && b.words.len() > 0 {
                        let ghost wv = timed_view(b.words@);
                        let mut lw = b.words.pop().unwrap();
                        assert(wv.last() == lw@);
                        push_all(&mut lw.text, &f);
                        b.words.push(lw);
                        assert(timed_view(b.words@) =~= append_to_last_word(wv, f@));
                    }
                    push_all(&mut b.text, &f);
                    s.current_line = Some(b);
                },
                None => {},
            }
        }
        s
    }

    fn close_span_exec(self) -> (r: Self)
        requires
            self.lines_well_formed(),
        ensures
            agrees(r@, close_span(self@)),
            r.lines_well_formed(),
    {
        let ghost s0 = self@;
        let mut s = self;
        if s.spans.len() == 0 {
            return s;
        }
        let ghost sv = spans_view(s.spans@);
        let span = s.spans.pop().unwrap();
        assert(sv.last() == span@);
        assert(spans_view(s.spans@) =~= sv.drop_last());
        if s.spans.len() > 0 {
            if span.background || !span.ignored {
                let ghost rv = spans_view(s.spans@);
                let mut parent = s.spans.pop().unwrap();
                assert(rv.last() == parent@);
                push_all(&mut parent.text, &span.text);
                s.spans.push(parent);
                assert(spans_view(s.spans@) =~= rv.update(
                    rv.len() - 1,
                    SpanModel { text: rv.last().text + span@.text, ..rv.last() },
                ));
            }
        } else {
            match s.current_line.take() {
                Some(b) => {
                    s.current_line = Some(attach_span_text_exec(b, &span));
                },
                None => {},
            }
        }
        let word = span_is_word_exec(&span) && s.current_line.is_some();
        if word {
            let st = span.begin_ms.unwrap();
            if st == u64::MAX {
                s.overflow = true;
            } else {
                let b = s.current_line.take().unwrap();
                s.current_line = Some(add_span_word_exec(b, span));
            }
        }
        s
    }

    fn close_paragraph_exec(self) -> (r: Self)
        requires
            self.lines_well_formed(),
        ensures
            agrees(r@, close_paragraph(self@)),
            r.lines_well_formed(),
    {
        let mut s = self;
        s.spans = Vec::new();
        assert(spans_view(s.spans@) =~= Seq::<SpanModel>::empty());
        match s.current_line.take() {
            Some(b) => {
                let (line, overflow) = finalize_line_exec(&b, &s.sidecar);
                if overflow {
                    s.overflow = true;
                } else {
                    match line {
                        Some(l) => {
                            let ghost prev = lines_view(s.lines@);
                            let ghost lm = l@;
                            s.lines.push(l);
                            assert(lines_view(s.lines@) =~= prev.push(lm));
                        },
                        None => {},
                    }
                }
            },
            None => {},
        }
        s
    }

    fn end_exec(self, raw_name: &String) -> (r: Self)
        requires
            self.lines_well_formed(),
        ensures
            agrees(r@, end_step(self@, raw_name@)),
            r.lines_well_formed(),
    {
        let mut s = self;
        let name_chars = chars_of(raw_name.as_str());
        let name = local_name(&name_chars);
        let no_line = s.current_line.is_none();
        if chars_equal_str(&name, "text") && no_line {
            match s.sidecar_target.take() {
                Some(t) => {
                    let entry = SidecarEntry {
                        key: t,
                        text: trimmed(&s.sidecar_text),
                        background_text: trimmed(&s.sidecar_background_text),
                    };
                    if entry.text.len() > 0 || entry.background_text.len() > 0 {
                        let ghost prev = sidecar_view(s.sidecar@);
                        let ghost em = entry@;
                        s.sidecar.push(entry);
                        assert(sidecar_view(s.sidecar@) =~= prev.push(em));
                    }
                },
                None => {},
            }
            s.sidecar_text = Vec::new();
            s.sidecar_background_text = Vec::new();
            s.sidecar_background_depth = 0;
        }
        if chars_equal_str(&name, "span") && no_line && s.sidecar_target.is_some()
            && s.sidecar_background_depth > 0 {
            s.sidecar_background_depth = s.sidecar_background_depth - 1;
        }
        if chars_equal_str(&name, "translation") && no_line {
            s.translation_depth = s.translation_depth.saturating_sub(1);
        }
        if chars_equal_str(&name, "span") {
            s.close_span_exec()
        } else if chars_equal_str(&name, "p") {
            s.close_paragraph_exec()
        } else {
            s
        }
    }

    /// Reads one event of the document.
    pub fn feed(self, event: &XmlEvent) -> (r: Self)
        requires
            self.lines_well_formed(),
        ensures
            agrees(r@, ttml_step(self@, event@)),
            r.lines_well_formed(),
    {
        if self.overflow {
            return self;
        }
        match event {
            XmlEvent::Start(e) => self.start_exec(e),
            XmlEvent::Empty(e) => self.empty_exec(e),
            XmlEvent::Text(t) => self.append_fragment(t),
            XmlEvent::End(n) => self.end_exec(n),
        }
    }
}

} // verus!

verus! {

fn assign_duets_exec(lines: &Vec<LyricLine>, agents: &Vec<AgentEntry>) -> (r: Vec<LyricLine>)
    requires
        forall|i: int| 0 <= i < lines@.len() ==> #[trigger] lines@[i].end_ms > lines@[i].start_ms,
    ensures
        lines_view(r@) == assign_duets_from(lines_view(lines@), agents_view(agents@), 0, None, false),
        forall|i: int| 0 <= i < r@.len() ==> #[trigger] r@[i].end_ms > r@[i].start_ms,
        r@.len() == lines@.len(),
{
    let ghost lv = lines_view(lines@);
    let ghost av = agents_view(agents@);
    let mut r: Vec<LyricLine> = Vec::new();
    let mut last_agent: Option<Vec<char>> = None;
    let mut last_duet = false;
    let mut i: usize = 0;
    assert(lines_view(r@) + lv.subrange(0, lv.len() as int) =~= lv);
    while i < lines.len()
        invariant
            i <= lines.len(),
            lv == lines_view(lines@),
            av == agents_view(agents@),
            r@.len() == i,
            forall|k: int| 0 <= k < lines@.len() ==> #[trigger] lines@[k].end_ms > lines@[k].start_ms,
            forall|k: int| 0 <= k < r@.len() ==> #[trigger] r@[k].end_ms > r@[k].start_ms,
            assign_duets_from(lv, av, 0, None, false) == assign_duets_from(
                lines_view(r@) + lv.subrange(i as int, lv.len() as int),
                av,
                i as int,
                opt_chars(last_agent),
                last_duet,
            ),
        decreases lines.len() - i,
    {
        let ghost cur = lines_view(r@) + lv.subrange(i as int, lv.len() as int);
        assert(cur[i as int] == lines@[i as int]@);
        let agent: Vec<char> = match &lines[i].agent_id {
            Some(a) => chars_of(a.as_str()),
            None => chars_of("v1"),
        };
        let is_other = match agent_lookup(agents, &agent) {
            Some(k) => chars_equal_str(&agents[k].kind, "other"),
            None => false,
        };
        let duet = match &last_agent {
            None => is_other,
            Some(a) => if chars_equal(a, &agent) {
                last_duet
            } else {
                !last_duet
            },
        };
        let mut line = crate::lyrics::copy_line(&lines[i]);
        line.is_duet = duet;
        let ghost lm = line@;
        let ghost prev = lines_view(r@);
        r.push(line);
        assert(lines_view(r@) =~= prev.push(lm));
        assert(cur.update(i as int, LineModel { is_duet: duet, ..cur[i as int] }) =~= lines_view(r@)
            + lv.subrange(i + 1, lv.len() as int));
        last_agent = Some(agent);
        last_duet = duet;
        i = i + 1;
    }
    assert(lines_view(r@) + lv.subrange(i as int, lv.len() as int) =~= lines_view(r@));
    r
}

fn fix_ends_exec(lines: &Vec<LyricLine>) -> (r: Vec<LyricLine>)
    requires
        forall|i: int| 0 <= i < lines@.len() ==> #[trigger] lines@[i].end_ms > lines@[i].start_ms,
    ensures
        lines_view(r@) == fix_ttml_ends(lines_view(lines@)),
{
    let ghost lv = lines_view(lines@);
    let mut r: Vec<LyricLine> = Vec::new();
    let mut i: usize = 0;
    while i < lines.len()
        invariant
            i <= lines.len(),
            lv == lines_view(lines@),
            forall|k: int| 0 <= k < lines@.len() ==> #[trigger] lines@[k].end_ms > lines@[k].start_ms,
            lines_view(r@) == fix_ttml_ends(lv).take(i as int),
        decreases lines.len() - i,
    {
        let mut line = crate::lyrics::copy_line(&lines[i]);
        assert(lv[i as int] == lines@[i as int]@);
        if i + 1 < lines.len() && line.end_ms <= line.start_ms {
            let next = lines[i + 1].start_ms;
            let bumped = line.start_ms + 1;
            line.end_ms = if next >= bumped {
                next
            } else {
                bumped
            };
        }
        let ghost lm = line@;
        let ghost prev = lines_view(r@);
        r.push(line);
        assert(lines_view(r@) =~= prev.push(lm));
        assert(fix_ttml_ends(lv).take(i + 1) =~= fix_ttml_ends(lv).take(i as int).push(lm));
        i = i + 1;
    }
    assert(fix_ttml_ends(lv).take(lines.len() as int) =~= fix_ttml_ends(lv));
    r
}

impl TtmlParser {
    /// Ends reading: the lines in start order, with duet sides assigned and
    /// every line ending after it starts. Fails when no paragraph had text.
    pub fn finish(self) -> (r: Result<Vec<LyricLine>, LyricsError>)
        requires
            !self@.overflow,
            self.lines_well_formed(),
        ensures
            match r {
                Ok(lines) => ttml_finish(self@) == Some(lines_view(lines@)),
                Err(e) => ttml_finish(self@) is None && e == LyricsError::NoTtmlLyricLines,
            },
    {
        let ghost s = self@;
        if self.lines.len() == 0 {
            return Err(LyricsError::NoTtmlLyricLines);
        }
        let TtmlParser { lines, agents, .. } = self;
        let ghost lv = lines_view(lines@);
        assert forall|i: int| 0 <= i < lv.len() implies (|l: LineModel| l.end_ms > l.start_ms)(
            #[trigger] lv[i],
        ) by {
            assert(lv[i] == lines@[i]@);
        }
        let sorted = sort_lines_by_start(lines);
        proof {
            crate::lyrics::lemma_sort_keeps(lv, |l: LineModel| l.end_ms > l.start_ms);
        }
        assert forall|i: int| 0 <= i < sorted@.len() implies #[trigger] sorted@[i].end_ms
            > sorted@[i].start_ms by {
            assert(lines_view(sorted@)[i] == sorted@[i]@);
        }
        let duets = assign_duets_exec(&sorted, &agents);
        Ok(fix_ends_exec(&duets))
    }
}

/// The mathematical values of events.
pub open spec fn events_view(events: Seq<XmlEvent>) -> Seq<EventModel> {
    events.map_values(|e: XmlEvent| e@)
}

proof fn lemma_agrees_step(x: TtmlState, y: TtmlState, z: TtmlState, e: EventModel)
    requires
        agrees(x, y),
        agrees(z, ttml_step(x, e)),
    ensures
        agrees(z, ttml_step(y, e)),
{
}

fn run_events(events: &Vec<XmlEvent>) -> (p: TtmlParser)
    ensures
        agrees(p@, ttml_run(events_view(events@))),
        p.lines_well_formed(),
{
    let ghost ev = events_view(events@);
    let mut p = TtmlParser::new();
    let mut i: usize = 0;
    while i < events.len()
        invariant
            i <= events.len(),
            ev == events_view(events@),
            agrees(p@, ttml_run(ev.take(i as int))),
            p.lines_well_formed(),
        decreases events.len() - i,
    {
        let ghost before = p@;
        p = p.feed(&events[i]);
        proof {
            assert(ev.take(i + 1).drop_last() =~= ev.take(i as int));
            assert(ev.take(i + 1).last() == events@[i as int]@);
            lemma_agrees_step(before, ttml_run(ev.take(i as int)), p@, events@[i as int]@);
        }
        i = i + 1;
    }
    assert(ev.take(events.len() as int) =~= ev);
    p
}

/// Whether reading the events keeps its millisecond and nesting arithmetic in range.
pub fn ttml_events_fit(events: &Vec<XmlEvent>) -> (b: bool)
    ensures
        b == !ttml_run(events_view(events@)).overflow,
{
    let p = run_events(events);
    !p.overflowed()
}

/// The lines that the events of a TTML document give.
pub fn parse_ttml_events(events: &Vec<XmlEvent>) -> (r: Result<Vec<LyricLine>, LyricsError>)
    requires
        !ttml_run(events_view(events@)).overflow,
    ensures
        match r {
            Ok(lines) => ttml_lines(events_view(events@)) == Some(lines_view(lines@)),
            Err(e) => ttml_lines(events_view(events@)) is None && e
                == LyricsError::NoTtmlLyricLines,
        },
{
    let p = run_events(events);
    p.finish()
}

/// A TTML text must hold something besides white space.
pub fn check_ttml_content(input: &str) -> (r: Result<(), LyricsError>)
    ensures
        r is Err <==> trim(input@).len() == 0,
        r matches Err(e) ==> e == LyricsError::NoTtmlContent,
{
    let chars = chars_of(input);
    if crate::text::is_blank(&chars) {
        Err(LyricsError::NoTtmlContent)
    } else {
        Ok(())
    }
}

/// Whether a qualified element name has the local name `tt`, the root of a TTML document.
pub fn is_ttml_root(name: &str) -> (b: bool)
    ensures
        b == (local_part(name@) == "tt"@),
{
    let chars = chars_of(name);
    let local = local_name(&chars);
    chars_equal_str(&local, "tt")
}

} // verus!

verus! {

/// What one read says about whether a document is TTML: an element decides
/// by whether its local name is `tt` (a name that is no UTF-8 counts as
/// empty), the end of the document or a syntax error says no, and anything
/// else leaves it to the next read.
pub open spec fn read_decision(r: XmlReadModel) -> Option<bool> {
    match r {
        XmlReadModel::Element(_, name, _) => Some(local_part(utf8_or_empty(name)) == "tt"@),
        XmlReadModel::Eof => Some(false),
        XmlReadModel::Error => Some(false),
        _ => None,
    }
}

/// The sniffing decision from read `k` of `text` on, with `budget` reads left.
pub open spec fn sniff_from(text: Seq<char>, k: nat, budget: nat) -> bool
    decreases budget,
{
    if budget == 0 {
        false
    } else {
        match read_decision(xml_read_at(text, k)) {
            Some(b) => b,
            None => sniff_from(text, k + 1, (budget - 1) as nat),
        }
    }
}

/// Whether a text is a TTML document: the first read that decides (within
/// 2^64 - 1 reads) says so.
pub open spec fn sniffs_as_ttml(text: Seq<char>) -> bool {
    sniff_from(text, 0, u64::MAX as nat)
}

/// What one read says about whether the document is TTML.
pub fn read_says_ttml(r: &XmlRead) -> (b: Option<bool>)
    ensures
        b == read_decision(r@),
{
    match r {
        XmlRead::Element(_, name, _) => {
            let text = text_or_empty(name);
            Some(is_ttml_root(text.as_str()))
        },
        XmlRead::Eof => Some(false),
        XmlRead::Error => Some(false),
        _ => None,
    }
}

/// Whether the text is a TTML document: whether the first element that an XML
/// reader finds in it has the local name `tt`. A document that ends, or turns
/// out not to be XML, before any element is no TTML.
pub fn looks_like_ttml(input: &str) -> (b: bool)
    ensures
        b == sniffs_as_ttml(input@),
{
    let mut reader = xml_reader(input);
    let mut budget: u64 = u64::MAX;
    while budget > 0
        invariant
            xml_reader_text(reader) == input@,
            xml_reader_position(reader) + budget == u64::MAX,
            sniffs_as_ttml(input@) == sniff_from(input@, xml_reader_position(reader), budget as nat),
        decreases budget,
    {
        let read = xml_read_event(&mut reader);
        match read_says_ttml(&read) {
            Some(answer) => return answer,
            None => {},
        }
        budget = budget - 1;
    }
    false
}

/// The clock readings that a caller supplies: each entry pairs a clock value,
/// as written in a `begin` or `end` attribute, with the milliseconds it reads
/// as (if any).
pub open spec fn clock_table_view(table: Seq<(String, Option<u64>)>) -> Seq<(Seq<char>, Option<u64>)> {
    table.map_values(|c: (String, Option<u64>)| (c.0@, c.1))
}

/// The reading of a clock value: that of the first entry (from `from` on)
/// that spells it; none for a missing value or one the table lacks.
pub open spec fn clock_reading(table: Seq<(Seq<char>, Option<u64>)>, value: Option<Seq<char>>, from: int) -> Option<
    int,
>
    decreases table.len() - from,
{
    match value {
        None => None,
        Some(v) => if from < 0 || from >= table.len() {
            None
        } else if table[from].0 == v {
            opt_ms(table[from].1)
        } else {
            clock_reading(table, value, from + 1)
        },
    }
}

/// The milliseconds that the table gives a clock value.
pub fn clock_ms(table: &Vec<(String, Option<u64>)>, value: &Option<String>) -> (r: Option<u64>)
    ensures
        opt_ms(r) == clock_reading(clock_table_view(table@), opt_text(*value), 0),
{
    let ghost tv = clock_table_view(table@);
    let v = match value {
        Some(v) => chars_of(v.as_str()),
        None => return None,
    };
    let mut i: usize = 0;
    while i < table.len()
        invariant
            i <= table.len(),
            tv == clock_table_view(table@),
            value is Some,
            v@ == value->0@,
            clock_reading(tv, opt_text(*value), 0) == clock_reading(tv, opt_text(*value), i as int),
        decreases table.len() - i,
    {
        assert(tv[i as int] == (table@[i as int].0@, table@[i as int].1));
        if chars_equal(&chars_of(table[i].0.as_str()), &v) {
            return table[i].1;
        }
        i = i + 1;
    }
    None
}

/// The element of a read start tag: its name and attribute keys as text
/// (empty where no UTF-8), attribute values read leniently, and its `begin`
/// and `end` times as the clock table reads them.
pub open spec fn element_model(
    name: Seq<u8>,
    attrs: Seq<(Seq<u8>, Seq<u8>)>,
    clock: Seq<(Seq<char>, Option<u64>)>,
) -> ElementModel {
    let attributes = attrs.map_values(
        |a: (Seq<u8>, Seq<u8>)| (utf8_or_empty(a.0), utf8_lossy(a.1)),
    );
    ElementModel {
        name: utf8_or_empty(name),
        attributes,
        begin_ms: clock_reading(clock, attr_from(attributes, "begin"@, 0), 0),
        end_ms: clock_reading(clock, attr_from(attributes, "end"@, 0), 0),
    }
}

/// What one read of a TTML document contributes: an event, nothing, the end
/// of the document, or a failure.
pub enum TtmlRead {
    Event(XmlEvent),
    Skip,
    Finished,
    Failed(LyricsError),
}

/// The mathematical value of what a read contributes.
pub enum TtmlReadModel {
    Event(EventModel),
    Skip,
    Finished,
    Failed(LyricsError),
}

impl View for TtmlRead {
    type V = TtmlReadModel;

    open spec fn view(&self) -> TtmlReadModel {
        match self {
            TtmlRead::Event(e) => TtmlReadModel::Event(e@),
            TtmlRead::Skip => TtmlReadModel::Skip,
            TtmlRead::Finished => TtmlReadModel::Finished,
            TtmlRead::Failed(e) => TtmlReadModel::Failed(*e),
        }
    }
}

/// What a read contributes: start and self-closing tags, text, CDATA (read
/// leniently) and end tags give events; declarations, comments and the like
/// give nothing; the end of the document ends it; text whose escapes do not
/// resolve and syntax errors fail.
pub open spec fn ttml_read_model(r: XmlReadModel, clock: Seq<(Seq<char>, Option<u64>)>) -> TtmlReadModel {
    match r {
        XmlReadModel::Element(empty, name, attrs) => TtmlReadModel::Event(
            if empty {
                EventModel::Empty(element_model(name, attrs, clock))
            } else {
                EventModel::Start(element_model(name, attrs, clock))
            },
        ),
        XmlReadModel::Text(Some(t)) => TtmlReadModel::Event(EventModel::Text(t)),
        XmlReadModel::Text(None) => TtmlReadModel::Failed(LyricsError::UndecodableTtmlText),
        XmlReadModel::CData(b) => TtmlReadModel::Event(EventModel::Text(utf8_lossy(b))),
        XmlReadModel::End(n) => TtmlReadModel::Event(EventModel::End(utf8_or_empty(n))),
        XmlReadModel::Eof => TtmlReadModel::Finished,
        XmlReadModel::Error => TtmlReadModel::Failed(LyricsError::UnreadableTtmlXml),
        XmlReadModel::Other => TtmlReadModel::Skip,
    }
}

/// What one read contributes to the events of a TTML document, with times
/// from the clock table.
pub fn ttml_read(read: XmlRead, clock: &Vec<(String, Option<u64>)>) -> (r: TtmlRead)
    ensures
        r@ == ttml_read_model(read@, clock_table_view(clock@)),
{
    match read {
        XmlRead::Element(empty, name, attrs) => {
            let e = element_of(&name, &attrs, clock);
            if empty {
                TtmlRead::Event(XmlEvent::Empty(e))
            } else {
                TtmlRead::Event(XmlEvent::Start(e))
            }
        },
        XmlRead::Text(Some(t)) => TtmlRead::Event(XmlEvent::Text(t)),
        XmlRead::Text(None) => TtmlRead::Failed(LyricsError::UndecodableTtmlText),
        XmlRead::CData(b) => TtmlRead::Event(XmlEvent::Text(lossy_text(b.as_slice()))),
        XmlRead::End(n) => TtmlRead::Event(XmlEvent::End(text_or_empty(&n))),
        XmlRead::Eof => TtmlRead::Finished,
        XmlRead::Error => TtmlRead::Failed(LyricsError::UnreadableTtmlXml),
        XmlRead::Other => TtmlRead::Skip,
    }
}

/// The events of a TTML text from read `k` on, after the events `acc`, with
/// `budget` reads left and times from the clock table.
pub open spec fn events_after(
    text: Seq<char>,
    clock: Seq<(Seq<char>, Option<u64>)>,
    k: nat,
    budget: nat,
    acc: Seq<EventModel>,
) -> Result<Seq<EventModel>, LyricsError>
    decreases budget,
{
    if budget == 0 {
        Ok(acc)
    } else {
        match ttml_read_model(xml_read_at(text, k), clock) {
            TtmlReadModel::Event(e) => events_after(text, clock, k + 1, (budget - 1) as nat, acc.push(e)),
            TtmlReadModel::Skip => events_after(text, clock, k + 1, (budget - 1) as nat, acc),
            TtmlReadModel::Finished => Ok(acc),
            TtmlReadModel::Failed(err) => Err(err),
        }
    }
}

/// The events of a TTML text (within 2^64 - 1 reads), with times from the
/// clock table.
pub open spec fn text_events(text: Seq<char>, clock: Seq<(Seq<char>, Option<u64>)>) -> Result<
    Seq<EventModel>,
    LyricsError,
> {
    events_after(text, clock, 0, u64::MAX as nat, Seq::empty())
}

/// The element of a read start tag, with times from the clock table.
pub fn element_of(
    name: &Vec<u8>,
    attrs: &Vec<(Vec<u8>, Vec<u8>)>,
    clock: &Vec<(String, Option<u64>)>,
) -> (e: XmlElement)
    ensures
        e@ == element_model(name@, raw_attributes_view(attrs@), clock_table_view(clock@)),
{
    let mut attributes: Vec<XmlAttribute> = Vec::new();
    let mut i: usize = 0;
    while i < attrs.len()
        invariant
            i <= attrs.len(),
            attributes.len() == i,
            forall|j: int|
                0 <= j < i ==> (#[trigger] attributes@[j]).key@ == utf8_or_empty(attrs@[j].0@)
                    && attributes@[j].value@ == utf8_lossy(attrs@[j].1@),
        decreases attrs.len() - i,
    {
        let key = text_or_empty(&attrs[i].0);
        let value = lossy_text(attrs[i].1.as_slice());
        attributes.push(XmlAttribute { key, value });
        i = i + 1;
    }
    let ghost model = element_model(name@, raw_attributes_view(attrs@), clock_table_view(clock@));
    assert(attributes@.map_values(|a: XmlAttribute| (a.key@, a.value@)) =~= model.attributes);
    let begin_ms = clock_ms(clock, &xml_attribute(&attributes, "begin"));
    let end_ms = clock_ms(clock, &xml_attribute(&attributes, "end"));
    XmlElement { name: text_or_empty(name), attributes, begin_ms, end_ms }
}

/// The events of a TTML text, in document order: start, self-closing and end
/// tags, text and CDATA, with the `begin` and `end` times that the clock
/// table gives (none with an empty table). A text that is empty or white
/// space only, text whose escapes do not resolve and XML syntax errors fail.
pub fn read_ttml_events(input: &str, clock: &Vec<(String, Option<u64>)>) -> (r: Result<
    Vec<XmlEvent>,
    LyricsError,
>)
    ensures
        trim(input@).len() == 0 ==> (r matches Err(e) && e == LyricsError::NoTtmlContent),
        trim(input@).len() != 0 ==> match r {
            Ok(events) => text_events(input@, clock_table_view(clock@)) == Ok::<
                Seq<EventModel>,
                LyricsError,
            >(events_view(events@)),
            Err(e) => text_events(input@, clock_table_view(clock@)) == Err::<
                Seq<EventModel>,
                LyricsError,
            >(e),
        },
{
    match check_ttml_content(input) {
        Err(e) => return Err(e),
        Ok(()) => {},
    }
    let mut reader = xml_reader(input);
    let mut events: Vec<XmlEvent> = Vec::new();
    let mut budget: u64 = u64::MAX;
    assert(events_view(events@) =~= Seq::<EventModel>::empty());
    while budget > 0
        invariant
            trim(input@).len() != 0,
            xml_reader_text(reader) == input@,
            xml_reader_position(reader) + budget == u64::MAX,
            text_events(input@, clock_table_view(clock@)) == events_after(
                input@,
                clock_table_view(clock@),
                xml_reader_position(reader),
                budget as nat,
                events_view(events@),
            ),
        decreases budget,
    {
        let ghost before = events_view(events@);
        let read = xml_read_event(&mut reader);
        match ttml_read(read, clock) {
            TtmlRead::Event(e) => {
                events.push(e);
                assert(events_view(events@) =~= before.push(events@.last()@));
            },
            TtmlRead::Skip => {},
            TtmlRead::Finished => return Ok(events),
            TtmlRead::Failed(err) => return Err(err),
        }
        budget = budget - 1;
    }
    Ok(events)
}

/// Reads TTML lyrics: the events of the text, with the `begin` and `end`
/// times that the clock table gives, turned into lines. Besides the errors
/// of reading the events and of finding no lines, times whose arithmetic
/// leaves the millisecond range are refused.
pub fn parse_ttml(input: &str, clock: &Vec<(String, Option<u64>)>) -> (r: Result<
    Vec<LyricLine>,
    LyricsError,
>)
    ensures
        trim(input@).len() == 0 ==> (r matches Err(e) && e == LyricsError::NoTtmlContent),
        trim(input@).len() != 0 ==> match text_events(input@, clock_table_view(clock@)) {
            Err(e) => r matches Err(x) && x == e,
            Ok(events) => if ttml_run(events).overflow {
                r matches Err(x) && x == LyricsError::TtmlTimesOverflow
            } else {
                match r {
                    Ok(lines) => ttml_lines(events) == Some(lines_view(lines@)),
                    Err(e) => ttml_lines(events) is None && e == LyricsError::NoTtmlLyricLines,
                }
            },
        },
{
    let events = match read_ttml_events(input, clock) {
        Ok(events) => events,
        Err(e) => return Err(e),
    };
    if ttml_events_fit(&events) {
        parse_ttml_events(&events)
    } else {
        Err(LyricsError::TtmlTimesOverflow)
    }
}

/// The agent that sings a line: its own, or `v1`.
pub open spec fn line_agent(l: LineModel) -> Seq<char> {
    match l.agent_id {
        Some(a) => a,
        None => "v1"@,
    }
}

/// The duet side of line `i` given the agent and side of the line before it.
pub open spec fn duet_after(
    agents: Seq<(Seq<char>, Seq<char>)>,
    agent: Seq<char>,
    last_agent: Option<Seq<char>>,
    last_duet: bool,
) -> bool {
    match last_agent {
        None => agent_kind(agents, agent) == Some("other"@),
        Some(a) => if a == agent {
            last_duet
        } else {
            !last_duet
        },
    }
}

proof fn lemma_assign_duets(
    lines: Seq<LineModel>,
    agents: Seq<(Seq<char>, Seq<char>)>,
    i: int,
    last_agent: Option<Seq<char>>,
    last_duet: bool,
)
    requires
        0 <= i <= lines.len(),
    ensures
        assign_duets_from(lines, agents, i, last_agent, last_duet).len() == lines.len(),
        forall|k: int|
            0 <= k < lines.len() ==> #[trigger] assign_duets_from(
                lines,
                agents,
                i,
                last_agent,
                last_duet,
            )[k] == (LineModel {
                is_duet: assign_duets_from(lines, agents, i, last_agent, last_duet)[k].is_duet,
                ..lines[k]
            }),
        forall|k: int|
            0 <= k < i ==> #[trigger] assign_duets_from(lines, agents, i, last_agent, last_duet)[k]
                == lines[k],
        i < lines.len() ==> assign_duets_from(lines, agents, i, last_agent, last_duet)[i].is_duet
            == duet_after(agents, line_agent(lines[i]), last_agent, last_duet),
        forall|k: int|
            i < k < lines.len() ==> (line_agent(lines[k]) == line_agent(lines[k - 1]) <==> (
            #[trigger] assign_duets_from(lines, agents, i, last_agent, last_duet)[k]).is_duet
                == assign_duets_from(lines, agents, i, last_agent, last_duet)[k - 1].is_duet),
    decreases lines.len() - i,
{
    if i < lines.len() {
        let agent = line_agent(lines[i]);
        let duet = duet_after(agents, agent, last_agent, last_duet);
        let next = lines.update(i, LineModel { is_duet: duet, ..lines[i] });
        assert(agent == match lines[i].agent_id {
            Some(a) => a,
            None => "v1"@,
        });
        lemma_assign_duets(next, agents, i + 1, Some(agent), duet);
        let r = assign_duets_from(lines, agents, i, last_agent, last_duet);
        assert(r == assign_duets_from(next, agents, i + 1, Some(agent), duet));
        assert forall|k: int| 0 <= k < lines.len() implies #[trigger] r[k] == (LineModel {
            is_duet: r[k].is_duet,
            ..lines[k]
        }) by {
            assert(r[k] == (LineModel { is_duet: r[k].is_duet, ..next[k] }));
        }
        assert forall|k: int| i < k < lines.len() implies (line_agent(lines[k]) == line_agent(
            lines[k - 1],
        ) <==> (#[trigger] r[k]).is_duet == r[k - 1].is_duet) by {
            assert(line_agent(next[k]) == line_agent(lines[k]));
            assert(line_agent(next[k - 1]) == line_agent(lines[k - 1]));
            if k == i + 1 {
                assert(r[i] == next[i]);
            }
        }
    }
}

/// Whether every line ends after it starts.
pub open spec fn lines_end_after_start(lines: Seq<LineModel>) -> bool {
    forall|i: int| 0 <= i < lines.len() ==> #[trigger] lines[i].end_ms > lines[i].start_ms
}

proof fn lemma_finalized_keeps_ends(lines: Seq<LineModel>, b: LineBuilderModel, sidecar: Seq<SidecarModel>)
    requires
        lines_end_after_start(lines),
    ensures
        lines_end_after_start(push_finalized(lines, finalize_line(b, sidecar))),
{
    match finalize_line(b, sidecar) {
        Some(l) => {
            assert(l.end_ms > l.start_ms);
            let after = lines.push(l);
            assert forall|i: int| 0 <= i < after.len() implies #[trigger] after[i].end_ms
                > after[i].start_ms by {
                if i < lines.len() {
                    assert(after[i] == lines[i]);
                }
            }
        },
        None => {},
    }
}

proof fn lemma_step_keeps_ends(s: TtmlState, ev: EventModel)
    requires
        lines_end_after_start(s.lines),
    ensures
        lines_end_after_start(ttml_step(s, ev).lines),
{
    if !s.overflow {
        match ev {
            EventModel::Start(e) => {
                match s.current_line {
                    Some(b) => lemma_finalized_keeps_ends(s.lines, b, s.sidecar),
                    None => {},
                }
                assert(lines_end_after_start(start_step(s, e).lines));
            },
            EventModel::Empty(e) => {
                lemma_finalized_keeps_ends(s.lines, new_builder(e), s.sidecar);
            },
            EventModel::Text(t) => {},
            EventModel::End(n) => {
                let s1 = close_span(s);
                assert(s1.lines == s.lines);
                match s1.current_line {
                    Some(b) => lemma_finalized_keeps_ends(s1.lines, b, s1.sidecar),
                    None => {},
                }
                match s.current_line {
                    Some(b) => lemma_finalized_keeps_ends(s.lines, b, s.sidecar),
                    None => {},
                }
            },
        }
    }
}

proof fn lemma_run_keeps_ends(events: Seq<EventModel>)
    ensures
        lines_end_after_start(ttml_run(events).lines),
    decreases events.len(),
{
    if events.len() > 0 {
        lemma_run_keeps_ends(events.drop_last());
        lemma_step_keeps_ends(ttml_run(events.drop_last()), events.last());
    }
}

/// The lines that a TTML document gives come in start order. The first line
/// sings on the duet side when its agent is declared of type `other`; after
/// it, a line changes side exactly when its agent differs from the previous
/// line's.
pub proof fn law_ttml_lines_ordered_and_duets_alternate(events: Seq<EventModel>)
    ensures
        ttml_lines(events) matches Some(ls) ==> {
            &&& crate::lyrics::sorted_by_start(ls)
            &&& lines_end_after_start(ls)
            &&& ls[0].is_duet == (agent_kind(ttml_run(events).agents, line_agent(ls[0])) == Some(
                "other"@,
            ))
            &&& forall|k: int|
                0 < k < ls.len() ==> (line_agent(ls[k]) == line_agent(ls[k - 1]) <==> (
                #[trigger] ls[k]).is_duet == ls[k - 1].is_duet)
        },
{
    let s = ttml_run(events);
    if s.lines.len() > 0 {
        let sorted = sort_by_start(s.lines);
        crate::lyrics::lemma_sort_by_start_sorted(s.lines);
        lemma_run_keeps_ends(events);
        crate::lyrics::lemma_sort_keeps(s.lines, |l: LineModel| l.end_ms > l.start_ms);
        lemma_assign_duets(sorted, s.agents, 0, None, false);
        let duets = assign_duets_from(sorted, s.agents, 0, None, false);
        let ls = fix_ttml_ends(duets);
        assert forall|k: int| 0 <= k < ls.len() implies #[trigger] ls[k].start_ms
            == sorted[k].start_ms && ls[k].is_duet == duets[k].is_duet && line_agent(ls[k])
            == line_agent(sorted[k]) && ls[k].end_ms > ls[k].start_ms by {
            assert(duets[k] == (LineModel { is_duet: duets[k].is_duet, ..sorted[k] }));
            assert((|l: LineModel| l.end_ms > l.start_ms)(sorted[k]));
        }
        assert forall|i: int, j: int| 0 <= i <= j < ls.len() implies ls[i].start_ms
            <= ls[j].start_ms by {
            assert(ls[i].start_ms == sorted[i].start_ms);
            assert(ls[j].start_ms == sorted[j].start_ms);
        }
        assert forall|k: int| 0 < k < ls.len() implies (line_agent(ls[k]) == line_agent(ls[k - 1])
            <==> (#[trigger] ls[k]).is_duet == ls[k - 1].is_duet) by {
            assert(ls[k - 1].is_duet == duets[k - 1].is_duet);
            assert(line_agent(ls[k - 1]) == line_agent(sorted[k - 1]));
            assert(duets[k].is_duet == duets[k - 1].is_duet <==> line_agent(sorted[k])
                == line_agent(sorted[k - 1]));
        }
        assert(ls[0].start_ms == sorted[0].start_ms);
    }
}


proof fn lemma_min_word_start(words: Seq<WordModel>)
    requires
        words.len() > 0,
    ensures
        min_word_start(words) is Some,
        exists|i: int| 0 <= i < words.len() && min_word_start(words) == Some(#[trigger] words[i].start_ms),
        forall|i: int| 0 <= i < words.len() ==> min_word_start(words)->0 <= #[trigger] words[i].start_ms,
    decreases words.len(),
{
    let rest = words.drop_last();
    let n = words.len() - 1;
    if rest.len() == 0 {
        assert(words[n].start_ms == words.last().start_ms);
    } else {
        lemma_min_word_start(rest);
        let m = min_word_start(rest)->0;
        let j = choose|j: int| 0 <= j < rest.len() && min_word_start(rest) == Some(#[trigger] rest[j].start_ms);
        assert(rest[j] == words[j]);
        assert forall|i: int| 0 <= i < words.len() implies min_word_start(words)->0 <= #[trigger] words[i].start_ms by {
            if i < n {
                assert(rest[i] == words[i]);
            }
        }
        if m <= words.last().start_ms {
            assert(min_word_start(words) == Some(words[j].start_ms));
        } else {
            assert(min_word_start(words) == Some(words[n].start_ms));
        }
    }
}

/// A finished paragraph without its own `begin` time that has words starts
/// where its earliest word starts: at the start of one of its words, and no
/// later than any of them.
pub proof fn law_untimed_paragraph_starts_at_earliest_word(b: LineBuilderModel, sidecar: Seq<SidecarModel>)
    requires
        b.start_ms is None,
        b.words.len() > 0,
        finalize_line(b, sidecar) is Some,
    ensures
        exists|i: int|
            0 <= i < b.words.len() && finalize_line(b, sidecar)->0.start_ms == #[trigger] b.words[i].start_ms,
        forall|i: int|
            0 <= i < b.words.len() ==> finalize_line(b, sidecar)->0.start_ms <= #[trigger] b.words[i].start_ms,
{
    lemma_min_word_start(b.words);
}

} // verus!

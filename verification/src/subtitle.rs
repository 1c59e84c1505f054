//! Subtitle payload parsing: plain text and HTML-styled text into styled
//! text segments.
use vstd::prelude::*;
use crate::text::{lowercase, to_lower, str_eq, chars_of, matches_at, string_from_chars};

verus! {

/// Encoding of a subtitle payload.
#[derive(Debug, Clone, Copy, PartialEq, Eq, Structural)]
pub enum SubtitleFormat {
    PlainText,
    Srt,
    WebVtt,
    Ass,
    Ssa,
    Html,
    Pgs,
    Dvb,
    DvdSub,
    Unknown,
}

/// A subtitle payload as delivered by the player.
#[derive(Debug, Clone)]
pub struct SubtitleData {
    pub format: SubtitleFormat,
    pub data: Vec<u8>,
}

/// An opaque RGB colour with 8 bits per channel.
#[derive(Debug, Clone, Copy, PartialEq, Eq, Structural)]
pub struct Rgb {
    pub r: u8,
    pub g: u8,
    pub b: u8,
}

/// Styling of a run of subtitle text.
#[derive(Debug, Clone, Copy, PartialEq, Eq, Structural)]
pub struct TextStyle {
    pub italic: bool,
    pub bold: bool,
    pub underline: bool,
    pub strikethrough: bool,
    pub color: Option<Rgb>,
}

pub open spec fn default_style() -> TextStyle {
    TextStyle { italic: false, bold: false, underline: false, strikethrough: false, color: None }
}

impl TextStyle {
    pub fn default() -> (s: TextStyle)
        ensures
            s == default_style(),
    {
        TextStyle { italic: false, bold: false, underline: false, strikethrough: false, color: None }
    }
}

/// A run of text with one style.
#[derive(Debug, Clone)]
pub struct StyledSegment {
    pub text: String,
    pub style: TextStyle,
}

/// Renderable text subtitle.
#[derive(Debug, Clone)]
pub struct TextSubtitle {
    pub segments: Vec<StyledSegment>,
}

/// A parsed subtitle.
#[derive(Debug, Clone)]
pub enum ParsedSubtitle {
    Text(TextSubtitle),
}

/// Text decoded from bytes as `String::from_utf8_lossy` decodes it.
pub uninterp spec fn utf8_lossy(bytes: Seq<u8>) -> Seq<char>;

/// `String::from_utf8_lossy`: the bytes as text, invalid sequences replaced.
#[verifier::external_body]
pub(crate) fn from_utf8_lossy(bytes: &[u8]) -> (r: String)
    ensures
        r@ == utf8_lossy(bytes@),
{
    String::from_utf8_lossy(bytes).to_string()
}

/// Whether `char::is_alphabetic` holds of a character (Unicode `Alphabetic`).
pub uninterp spec fn alphabetic(c: char) -> bool;

/// `char::is_alphabetic`: on ASCII characters, exactly the letters
/// `a`-`z` and `A`-`Z`.
#[verifier::external_body]
pub(crate) fn is_alphabetic(c: char) -> (b: bool)
    ensures
        b == alphabetic(c),
        (c as u32) < 128 ==> (b <==> (('a' <= c && c <= 'z') || ('A' <= c && c <= 'Z'))),
{
    c.is_alphabetic()
}


/// Unicode `White_Space`, as `char::is_whitespace` defines it.
pub open spec fn is_ws(c: char) -> bool {
    let u = c as u32;
    ||| (0x09 <= u && u <= 0x0D)
    ||| u == 0x20
    ||| u == 0x85
    ||| u == 0xA0
    ||| u == 0x1680
    ||| (0x2000 <= u && u <= 0x200A)
    ||| u == 0x2028
    ||| u == 0x2029
    ||| u == 0x202F
    ||| u == 0x205F
    ||| u == 0x3000
}

/// `char::is_whitespace`.
pub fn is_whitespace(c: char) -> (b: bool)
    ensures
        b == is_ws(c),
{
    let u = c as u32;
    (0x09 <= u && u <= 0x0D) || u == 0x20 || u == 0x85 || u == 0xA0 || u == 0x1680
        || (0x2000 <= u && u <= 0x200A) || u == 0x2028 || u == 0x2029 || u == 0x202F
        || u == 0x205F || u == 0x3000
}

/// Whether a string is empty after trimming whitespace.
pub open spec fn blank(s: Seq<char>) -> bool {
    forall|i: int| 0 <= i < s.len() ==> is_ws(#[trigger] s[i])
}

/// The maximal runs of non-whitespace characters of `s`, in order
/// (what `str::split_whitespace` yields).
pub open spec fn tokens(s: Seq<char>) -> Seq<Seq<char>>
    decreases s.len(),
{
    if s.len() == 0 {
        Seq::empty()
    } else {
        let p = s.drop_last();
        let t = tokens(p);
        let c = s.last();
        if is_ws(c) {
            t
        } else if p.len() > 0 && !is_ws(p.last()) {
            t.update(t.len() - 1, t.last().push(c))
        } else {
            t.push(seq![c])
        }
    }
}

pub proof fn lemma_tokens_nonempty(s: Seq<char>)
    requires
        s.len() > 0,
        !is_ws(s.last()),
    ensures
        tokens(s).len() > 0,
    decreases s.len(),
{
    let p = s.drop_last();
    if p.len() > 0 && !is_ws(p.last()) {
        lemma_tokens_nonempty(p);
    }
}

/// Split on whitespace.
pub fn split_whitespace(s: &Vec<char>) -> (t: Vec<Vec<char>>)
    ensures
        t@.map_values(|v: Vec<char>| v@) == tokens(s@),
{
    let mut t: Vec<Vec<char>> = Vec::new();
    let mut i: usize = 0;
    while i < s.len()
        invariant
            i <= s@.len(),
            t@.map_values(|v: Vec<char>| v@) == tokens(s@.take(i as int)),
        decreases s@.len() - i,
    {
        let c = s[i];
        let ghost p = s@.take(i as int);
        proof {
            assert(s@.take(i + 1).drop_last() == p);
            assert(s@.take(i + 1).last() == c);
        }
        if is_whitespace(c) {
        } else if i > 0 && !is_whitespace(s[i - 1]) {
            proof {
                assert(p.last() == s@[i - 1]);
                lemma_tokens_nonempty(p);
            }
            let last = t.len() - 1;
            let mut cur = t.remove(last);
            cur.push(c);
            t.push(cur);
            proof {
                assert(t@.map_values(|v: Vec<char>| v@) =~= tokens(s@.take(i + 1)));
            }
        } else {
            let mut cur: Vec<char> = Vec::new();
            cur.push(c);
            t.push(cur);
            proof {
                if i > 0 {
                    assert(p.last() == s@[i - 1]);
                }
                assert(t@.map_values(|v: Vec<char>| v@) =~= tokens(s@.take(i + 1)));
            }
        }
        i += 1;
    }
    assert(s@.take(s@.len() as int) == s@);
    t
}


/// Value of a hexadecimal digit.
pub open spec fn hex_val(c: char) -> Option<u8> {
    let u = c as u32;
    if 0x30 <= u && u <= 0x39 {
        Some((u - 0x30) as u8)
    } else if 0x61 <= u && u <= 0x66 {
        Some((u - 0x61 + 10) as u8)
    } else if 0x41 <= u && u <= 0x46 {
        Some((u - 0x41 + 10) as u8)
    } else {
        None
    }
}

/// Two characters read as a base-16 `u8` the way `u8::from_str_radix` reads
/// them: two hex digits, or a `+` sign and one hex digit.
pub open spec fn hex_pair(a: char, b: char) -> Option<u8> {
    if a == '+' {
        hex_val(b)
    } else {
        match (hex_val(a), hex_val(b)) {
            (Some(x), Some(y)) => Some((16 * x + y) as u8),
            _ => None,
        }
    }
}

/// Whether every character is ASCII.
pub open spec fn all_ascii(s: Seq<char>) -> bool {
    forall|i: int| 0 <= i < s.len() ==> (#[trigger] s[i] as u32) < 0x80
}

/// Six ASCII characters read as three base-16 channel values.
pub open spec fn hex_color(rest: Seq<char>) -> Option<Rgb> {
    if rest.len() == 6 && all_ascii(rest) {
        match (hex_pair(rest[0], rest[1]), hex_pair(rest[2], rest[3]), hex_pair(rest[4], rest[5])) {
            (Some(r), Some(g), Some(b)) => Some(Rgb { r, g, b }),
            _ => None,
        }
    } else {
        None
    }
}

/// A named colour from its lowercase name.
pub open spec fn named_color(lc: Seq<char>) -> Option<Rgb> {
    if lc == "white"@ { Some(Rgb { r: 255, g: 255, b: 255 }) }
    else if lc == "black"@ { Some(Rgb { r: 0, g: 0, b: 0 }) }
    else if lc == "red"@ { Some(Rgb { r: 255, g: 0, b: 0 }) }
    else if lc == "green"@ { Some(Rgb { r: 0, g: 255, b: 0 }) }
    else if lc == "blue"@ { Some(Rgb { r: 0, g: 0, b: 255 }) }
    else if lc == "yellow"@ { Some(Rgb { r: 255, g: 255, b: 0 }) }
    else if lc == "cyan"@ { Some(Rgb { r: 0, g: 255, b: 255 }) }
    else if lc == "magenta"@ { Some(Rgb { r: 255, g: 0, b: 255 }) }
    else { None }
}

/// The colour an HTML colour value names: `#rrggbb`, else a colour name.
pub open spec fn html_color(c: Seq<char>) -> Option<Rgb> {
    if c.len() > 0 && c[0] == '#' && hex_color(c.drop_first()) is Some {
        hex_color(c.drop_first())
    } else {
        named_color(lowercase(c))
    }
}

/// Bytes of a character in UTF-8.
pub open spec fn char_utf8_len(c: char) -> nat {
    let u = c as u32;
    if u < 0x80 { 1 } else if u < 0x800 { 2 } else if u < 0x10000 { 3 } else { 4 }
}

/// Bytes of a string in UTF-8.
pub open spec fn utf8_len(s: Seq<char>) -> nat
    decreases s.len(),
{
    if s.len() == 0 { 0 } else { utf8_len(s.drop_last()) + char_utf8_len(s.last()) }
}

/// Whether byte offset `b` falls between characters of `s`.
pub open spec fn is_char_boundary(s: Seq<char>, b: nat) -> bool {
    exists|k: int| 0 <= k <= s.len() && #[trigger] utf8_len(s.take(k)) == b
}

/// Whether reading `c` as a colour slices `#rrggbb` inside a character (the
/// value has six bytes after `#` but a two-byte group splits a character).
pub open spec fn color_panics(c: Seq<char>) -> bool {
    &&& c.len() > 0
    &&& c[0] == '#'
    &&& utf8_len(c.drop_first()) == 6
    &&& !(is_char_boundary(c.drop_first(), 2) && is_char_boundary(c.drop_first(), 4))
}

proof fn lemma_utf8_len_ascii(s: Seq<char>)
    requires
        all_ascii(s),
    ensures
        utf8_len(s) == s.len(),
    decreases s.len(),
{
    if s.len() > 0 {
        assert(all_ascii(s.drop_last()));
        lemma_utf8_len_ascii(s.drop_last());
        assert((s.last() as u32) < 0x80);
    }
}

fn hex_value(c: char) -> (r: Option<u8>)
    ensures
        r == hex_val(c),
{
    let u = c as u32;
    if 0x30 <= u && u <= 0x39 {
        Some((u - 0x30) as u8)
    } else if 0x61 <= u && u <= 0x66 {
        Some((u - 0x61 + 10) as u8)
    } else if 0x41 <= u && u <= 0x46 {
        Some((u - 0x41 + 10) as u8)
    } else {
        None
    }
}

fn parse_hex_pair(a: char, b: char) -> (r: Option<u8>)
    ensures
        r == hex_pair(a, b),
{
    if a == '+' {
        hex_value(b)
    } else {
        match (hex_value(a), hex_value(b)) {
            (Some(x), Some(y)) => Some(16 * x + y),
            _ => None,
        }
    }
}

/// Parse an HTML colour value (`#rrggbb` or a colour name).
pub fn parse_html_color(color: &str) -> (r: Option<Rgb>)
    requires
        !color_panics(color@),
    ensures
        r == html_color(color@),
{
    let cv = chars_of(color);
    if cv.len() == 7 && cv[0] == '#' {
        let mut ascii = true;
        let mut i: usize = 1;
        while i < 7
            invariant
                cv@ == color@,
                cv@.len() == 7,
                1 <= i <= 7,
                ascii == forall|t: int| 1 <= t < i ==> (#[trigger] cv@[t] as u32) < 0x80,
            decreases 7 - i,
        {
            if (cv[i] as u32) >= 0x80 {
                ascii = false;
            }
            i += 1;
        }
        proof {
            let rest = color@.drop_first();
            assert(ascii == all_ascii(rest)) by {
                if ascii {
                    assert forall|t: int| 0 <= t < rest.len() implies (#[trigger] rest[t] as u32) < 0x80 by {
                        assert(rest[t] == cv@[t + 1]);
                    }
                } else {
                    let t = choose|t: int| 1 <= t < 7 && !((cv@[t] as u32) < 0x80);
                    assert(rest[t - 1] == cv@[t]);
                }
            }
        }
        if ascii {
            match (parse_hex_pair(cv[1], cv[2]), parse_hex_pair(cv[3], cv[4]), parse_hex_pair(cv[5], cv[6])) {
                (Some(r), Some(g), Some(b)) => {
                    return Some(Rgb { r, g, b });
                },
                _ => {},
            }
        }
    }
    let lc = to_lower(color);
    let l = lc.as_str();
    if str_eq(l, "white") { Some(Rgb { r: 255, g: 255, b: 255 }) }
    else if str_eq(l, "black") { Some(Rgb { r: 0, g: 0, b: 0 }) }
    else if str_eq(l, "red") { Some(Rgb { r: 255, g: 0, b: 0 }) }
    else if str_eq(l, "green") { Some(Rgb { r: 0, g: 255, b: 0 }) }
    else if str_eq(l, "blue") { Some(Rgb { r: 0, g: 0, b: 255 }) }
    else if str_eq(l, "yellow") { Some(Rgb { r: 255, g: 255, b: 0 }) }
    else if str_eq(l, "cyan") { Some(Rgb { r: 0, g: 255, b: 255 }) }
    else if str_eq(l, "magenta") { Some(Rgb { r: 255, g: 0, b: 255 }) }
    else { None }
}


/// `s` without leading `"` characters.
pub open spec fn trim_start_quotes(s: Seq<char>) -> Seq<char>
    decreases s.len(),
{
    if s.len() > 0 && s[0] == '"' { trim_start_quotes(s.drop_first()) } else { s }
}

/// `s` without trailing `"` characters.
pub open spec fn trim_end_quotes(s: Seq<char>) -> Seq<char>
    decreases s.len(),
{
    if s.len() > 0 && s.last() == '"' { trim_end_quotes(s.drop_last()) } else { s }
}

/// `s` with `"` trimmed from both ends (`str::trim_matches('"')`).
pub open spec fn trim_quotes(s: Seq<char>) -> Seq<char> {
    trim_end_quotes(trim_start_quotes(s))
}

/// Whether `s` begins with `p`.
pub open spec fn starts_with(s: Seq<char>, p: Seq<char>) -> bool {
    p.len() <= s.len() && s.take(p.len() as int) == p
}

/// The colour a `<font>` tag's attributes leave, starting from `color`:
/// each `color=` attribute in turn replaces it (by what it names, possibly
/// nothing). `None` when an attribute value would split a character.
pub open spec fn font_color(color: Option<Rgb>, attrs: Seq<Seq<char>>) -> Option<Option<Rgb>>
    decreases attrs.len(),
{
    if attrs.len() == 0 {
        Some(color)
    } else {
        match font_color(color, attrs.drop_last()) {
            None => None,
            Some(c0) => {
                let a = attrs.last();
                if starts_with(a, "color="@) {
                    let v = trim_quotes(a.skip(6));
                    if color_panics(v) { None } else { Some(html_color(v)) }
                } else {
                    Some(c0)
                }
            },
        }
    }
}

/// Parser state: finished segments, the text of the current segment, its
/// style, and the stack of open tag names.
pub struct HtmlState {
    pub segs: Seq<(Seq<char>, TextStyle)>,
    pub text: Seq<char>,
    pub style: TextStyle,
    pub stack: Seq<Seq<char>>,
}

pub open spec fn initial_html_state() -> HtmlState {
    HtmlState { segs: Seq::empty(), text: Seq::empty(), style: default_style(), stack: Seq::empty() }
}

/// Close the current segment if it has text.
pub open spec fn flush(st: HtmlState) -> HtmlState {
    if st.text.len() > 0 {
        HtmlState { segs: st.segs.push((st.text, st.style)), text: Seq::empty(), ..st }
    } else {
        st
    }
}

/// `style` with the flag a formatting tag controls set to `on`.
pub open spec fn set_flag(style: TextStyle, name: Seq<char>, on: bool) -> TextStyle {
    if name == "i"@ || name == "em"@ {
        TextStyle { italic: on, ..style }
    } else if name == "b"@ || name == "strong"@ {
        TextStyle { bold: on, ..style }
    } else if name == "u"@ {
        TextStyle { underline: on, ..style }
    } else if name == "s"@ || name == "strike"@ {
        TextStyle { strikethrough: on, ..style }
    } else {
        style
    }
}

/// The lowercase tag name of a tag's content (empty when it has no word).
pub open spec fn tag_name(tag: Seq<char>) -> Seq<char> {
    let toks = tokens(tag);
    if toks.len() > 0 { lowercase(toks[0]) } else { Seq::empty() }
}

/// Apply an opening or closing tag with content `tag` (after any `/`).
/// A closing tag pops the stack only when it names the innermost open tag.
pub open spec fn apply_tag(st: HtmlState, tag: Seq<char>, closing: bool) -> Option<HtmlState> {
    let name = tag_name(tag);
    if closing {
        if st.stack.len() > 0 && st.stack.last() == name {
            Some(HtmlState { stack: st.stack.drop_last(), style: set_flag(st.style, name, false), ..st })
        } else {
            Some(st)
        }
    } else {
        let st1 = HtmlState { stack: st.stack.push(name), style: set_flag(st.style, name, true), ..st };
        if name == "br"@ || name == "br/"@ {
            Some(HtmlState { text: st1.text.push('\n'), ..st1 })
        } else if name == "font"@ {
            match font_color(st1.style.color, tokens(tag).skip(1)) {
                None => None,
                Some(c) => Some(HtmlState { style: TextStyle { color: c, ..st1.style }, ..st1 }),
            }
        } else {
            Some(st1)
        }
    }
}

/// Position of the first `>` among the 50 characters from `start`, or -1.
pub open spec fn find_close(s: Seq<char>, start: int) -> int {
    close_from(s, start, if start + 50 < s.len() { start + 50 } else { s.len() as int })
}

pub open spec fn close_from(s: Seq<char>, j: int, end: int) -> int
    decreases end - j,
{
    if j >= end || j < 0 {
        -1
    } else if s[j] == '>' {
        j
    } else {
        close_from(s, j + 1, end)
    }
}

/// Run the parser from position `i`. A `<` starts a tag when a `>` follows
/// within 50 characters and the text between starts with `/` or a letter;
/// otherwise it is text. `None` when a font colour value would split a character.
pub open spec fn html_run(s: Seq<char>, i: int, st: HtmlState) -> Option<HtmlState>
    decreases s.len() - i,
{
    if i >= s.len() || i < 0 {
        Some(st)
    } else if s[i] == '<' {
        let j = find_close(s, i + 1);
        if j > i + 1 && j < s.len() && (s[i + 1] == '/' || alphabetic(s[i + 1])) {
            let closing = s[i + 1] == '/';
            let tag = s.subrange(if closing { i + 2 } else { i + 1 }, j);
            match apply_tag(flush(st), tag, closing) {
                None => None,
                Some(st2) => html_run(s, j + 1, st2),
            }
        } else {
            html_run(s, i + 1, HtmlState { text: st.text.push('<'), ..st })
        }
    } else {
        html_run(s, i + 1, HtmlState { text: st.text.push(s[i]), ..st })
    }
}

/// The styled segments of HTML-styled text, or `None` when parsing it would
/// slice a font colour value inside a character.
pub open spec fn html_segments(s: Seq<char>) -> Option<Seq<(Seq<char>, TextStyle)>> {
    match html_run(s, 0, initial_html_state()) {
        None => None,
        Some(st) => Some(if st.text.len() > 0 { st.segs.push((st.text, st.style)) } else { st.segs }),
    }
}

proof fn lemma_run_plain(s: Seq<char>, i: int, st: HtmlState)
    requires
        0 <= i <= s.len(),
        forall|j: int| i <= j < s.len() ==> s[j] != '<',
    ensures
        html_run(s, i, st) == Some(HtmlState { text: st.text + s.subrange(i, s.len() as int), ..st }),
    decreases s.len() - i,
{
    if i < s.len() {
        let st1 = HtmlState { text: st.text.push(s[i]), ..st };
        lemma_run_plain(s, i + 1, st1);
        assert(st.text.push(s[i]) + s.subrange(i + 1, s.len() as int) =~= st.text + s.subrange(i, s.len() as int));
    } else {
        assert(st.text + s.subrange(i, s.len() as int) =~= st.text);
    }
}

/// Text without a `<` is a single unstyled segment holding all of it (none
/// when it is empty).
pub proof fn lemma_plain_html(s: Seq<char>)
    requires
        forall|j: int| 0 <= j < s.len() ==> s[j] != '<',
    ensures
        html_segments(s) == Some(if s.len() > 0 { seq![(s, default_style())] } else { Seq::empty() }),
{
    lemma_run_plain(s, 0, initial_html_state());
    assert(Seq::<char>::empty() + s.subrange(0, s.len() as int) =~= s);
    if s.len() > 0 {
        assert(Seq::<(Seq<char>, TextStyle)>::empty().push((s, default_style())) =~= seq![(s, default_style())]);
    }
}

/// The (text, style) pairs of segments.
pub open spec fn segments_view(v: Seq<StyledSegment>) -> Seq<(Seq<char>, TextStyle)> {
    v.map_values(|g: StyledSegment| (g.text@, g.style))
}

/// The names on a tag stack.
pub open spec fn stack_view(v: Seq<String>) -> Seq<Seq<char>> {
    v.map_values(|x: String| x@)
}

/// The parser state that the executable parser's variables stand for.
pub open spec fn mk_state(segs: Seq<StyledSegment>, text: Seq<char>, style: TextStyle, stack: Seq<String>) -> HtmlState {
    HtmlState { segs: segments_view(segs), text, style, stack: stack_view(stack) }
}

proof fn lemma_close_from_range(s: Seq<char>, j: int, end: int)
    requires
        end <= s.len(),
    ensures
        close_from(s, j, end) == -1 || (j <= close_from(s, j, end) < end && 0 <= close_from(s, j, end)
            && s[close_from(s, j, end)] == '>'),
    decreases end - j,
{
    if j >= end || j < 0 {
    } else if s[j] == '>' {
    } else {
        lemma_close_from_range(s, j + 1, end);
    }
}

fn find_close_exec(s: &Vec<char>, start: usize) -> (r: Option<usize>)
    requires
        start <= s@.len(),
    ensures
        match r {
            Some(j) => j == find_close(s@, start as int),
            None => find_close(s@, start as int) == -1,
        },
{
    let end: usize = if s.len() - start > 50 { start + 50 } else { s.len() };
    assert(find_close(s@, start as int) == close_from(s@, start as int, end as int));
    let mut j = start;
    while j < end
        invariant
            start <= j <= end,
            end <= s@.len(),
            find_close(s@, start as int) == close_from(s@, j as int, end as int),
        decreases end - j,
    {
        if s[j] == '>' {
            assert(close_from(s@, j as int, end as int) == j as int);
            return Some(j);
        }
        j += 1;
    }
    None
}

fn copy_range(s: &Vec<char>, from: usize, to: usize) -> (r: Vec<char>)
    requires
        from <= to <= s@.len(),
    ensures
        r@ == s@.subrange(from as int, to as int),
{
    let mut r: Vec<char> = Vec::new();
    let mut k = from;
    while k < to
        invariant
            from <= k <= to,
            to <= s@.len(),
            r@ == s@.subrange(from as int, k as int),
        decreases to - k,
    {
        r.push(s[k]);
        proof {
            assert(s@.subrange(from as int, k + 1) == s@.subrange(from as int, k as int).push(s@[k as int]));
        }
        k += 1;
    }
    r
}

fn trim_quotes_exec(v: &Vec<char>) -> (r: Vec<char>)
    ensures
        r@ == trim_quotes(v@),
{
    let mut a: usize = 0;
    assert(v@.skip(0) == v@);
    while a < v.len() && v[a] == '"'
        invariant
            a <= v@.len(),
            trim_start_quotes(v@) == trim_start_quotes(v@.skip(a as int)),
        decreases v@.len() - a,
    {
        proof {
            assert(v@.skip(a as int).drop_first() == v@.skip(a + 1));
        }
        a += 1;
    }
    proof {
        assert(trim_start_quotes(v@.skip(a as int)) == v@.skip(a as int));
    }
    let mut b: usize = v.len();
    while b > a && v[b - 1] == '"'
        invariant
            a <= b <= v@.len(),
            trim_quotes(v@) == trim_end_quotes(v@.subrange(a as int, b as int)),
            trim_start_quotes(v@) == v@.skip(a as int),
        decreases b,
    {
        proof {
            assert(v@.subrange(a as int, b as int).drop_last() == v@.subrange(a as int, b - 1));
        }
        b -= 1;
    }
    proof {
        assert(v@.skip(a as int) == v@.subrange(a as int, v@.len() as int));
    }
    copy_range(v, a, b)
}


proof fn lemma_utf8_take_step(s: Seq<char>, k: int)
    requires
        0 <= k < s.len(),
    ensures
        utf8_len(s.take(k + 1)) == utf8_len(s.take(k)) + char_utf8_len(s[k]),
{
    assert(s.take(k + 1).drop_last() == s.take(k));
}

proof fn lemma_utf8_take_le(s: Seq<char>, k: int)
    requires
        0 <= k <= s.len(),
    ensures
        utf8_len(s.take(k)) <= utf8_len(s),
    decreases s.len() - k,
{
    if k < s.len() {
        lemma_utf8_take_step(s, k);
        lemma_utf8_take_le(s, k + 1);
    } else {
        assert(s.take(k) == s);
    }
}

fn char_bytes(ch: char) -> (n: usize)
    ensures
        n == char_utf8_len(ch),
{
    let u = ch as u32;
    if u < 0x80 { 1 } else if u < 0x800 { 2 } else if u < 0x10000 { 3 } else { 4 }
}

/// Whether reading `c` as a colour value would slice inside a character.
fn color_would_split(c: &Vec<char>) -> (b: bool)
    ensures
        b == color_panics(c@),
{
    if c.len() == 0 || c[0] != '#' {
        return false;
    }
    let ghost rest = c@.drop_first();
    let mut total: usize = 0;
    let mut hit2 = false;
    let mut hit4 = false;
    let mut k: usize = 1;
    while k < c.len()
        invariant
            1 <= k <= c@.len(),
            rest == c@.drop_first(),
            c@.len() > 0,
            c@[0] == '#',
            total == utf8_len(rest.take(k - 1)),
            total <= 6,
            hit2 == exists|k2: int| 0 <= k2 <= k - 1 && #[trigger] utf8_len(rest.take(k2)) == 2,
            hit4 == exists|k2: int| 0 <= k2 <= k - 1 && #[trigger] utf8_len(rest.take(k2)) == 4,
        decreases c@.len() - k,
    {
        let n = char_bytes(c[k]);
        proof {
            assert(rest[k - 1] == c@[k as int]);
            lemma_utf8_take_step(rest, k - 1);
        }
        total = total + n;
        if total > 6 {
            proof {
                lemma_utf8_take_le(rest, k as int);
            }
            return false;
        }
        proof {
            if !hit2 && total != 2 {
                assert forall|k2: int| 0 <= k2 <= k implies #[trigger] utf8_len(rest.take(k2)) != 2 by {
                    if k2 < k {
                    }
                }
            }
            if !hit4 && total != 4 {
                assert forall|k2: int| 0 <= k2 <= k implies #[trigger] utf8_len(rest.take(k2)) != 4 by {
                    if k2 < k {
                    }
                }
            }
        }
        if total == 2 {
            hit2 = true;
        }
        if total == 4 {
            hit4 = true;
        }
        k += 1;
    }
    proof {
        assert(rest.take(rest.len() as int) == rest);
    }
    total == 6 && !(hit2 && hit4)
}

/// `style` with the flag that tag `name` controls set to `on`.
fn set_flag_exec(style: TextStyle, name: &str, on: bool) -> (r: TextStyle)
    ensures
        r == set_flag(style, name@, on),
{
    if str_eq(name, "i") || str_eq(name, "em") {
        TextStyle { italic: on, ..style }
    } else if str_eq(name, "b") || str_eq(name, "strong") {
        TextStyle { bold: on, ..style }
    } else if str_eq(name, "u") {
        TextStyle { underline: on, ..style }
    } else if str_eq(name, "s") || str_eq(name, "strike") {
        TextStyle { strikethrough: on, ..style }
    } else {
        style
    }
}

/// Whether a tag attribute begins with `color=`.
fn is_color_attr(a: &Vec<char>) -> (b: bool)
    ensures
        b == starts_with(a@, "color="@),
{
    let p = chars_of("color=");
    if p.len() > a.len() {
        return false;
    }
    matches_at(a, &p, 0)
}

proof fn lemma_font_color_none(color: Option<Rgb>, attrs: Seq<Seq<char>>, k: int)
    requires
        0 <= k <= attrs.len(),
        font_color(color, attrs.take(k)) is None,
    ensures
        font_color(color, attrs) is None,
    decreases attrs.len() - k,
{
    if k < attrs.len() {
        assert(attrs.take(k + 1).drop_last() == attrs.take(k));
        lemma_font_color_none(color, attrs, k + 1);
    } else {
        assert(attrs.take(k) == attrs);
    }
}

/// The colour a `<font>` tag's attributes leave, or `None` where a colour
/// value would split a character.
fn font_color_exec(color: Option<Rgb>, toks: &Vec<Vec<char>>) -> (r: Option<Option<Rgb>>)
    requires
        toks@.len() > 0,
    ensures
        r == font_color(color, toks@.map_values(|v: Vec<char>| v@).skip(1)),
{
    let ghost attrs = toks@.map_values(|v: Vec<char>| v@).skip(1);
    let mut cur = color;
    let mut k: usize = 1;
    proof {
        reveal_strlit("color=");
        assert(attrs.take(0) == Seq::<Seq<char>>::empty());
    }
    while k < toks.len()
        invariant
            1 <= k <= toks@.len(),
            attrs == toks@.map_values(|v: Vec<char>| v@).skip(1),
            font_color(color, attrs.take(k - 1)) == Some(cur),
            "color="@.len() == 6,
        decreases toks@.len() - k,
    {
        let a = &toks[k];
        proof {
            assert(attrs.take(k as int).drop_last() == attrs.take(k - 1));
            assert(attrs.take(k as int).last() == a@);
        }
        if is_color_attr(a) {
            let tail = copy_range(a, 6, a.len());
            let v = trim_quotes_exec(&tail);
            if color_would_split(&v) {
                proof {
                    assert(font_color(color, attrs.take(k as int)) is None);
                    lemma_font_color_none(color, attrs, k as int);
                }
                return None;
            }
            let vs = string_from_chars(&v);
            cur = parse_html_color(vs.as_str());
        }
        k += 1;
    }
    proof {
        assert(attrs.take(attrs.len() as int) == attrs);
    }
    Some(cur)
}

/// Apply an opening or closing tag to the parser variables; `false` where
/// a font colour value would split a character.
fn apply_tag_exec(
    tag: &Vec<char>,
    closing: bool,
    segs: &Vec<StyledSegment>,
    text: &mut Vec<char>,
    style: &mut TextStyle,
    stack: &mut Vec<String>,
) -> (ok: bool)
    ensures
        match apply_tag(mk_state(segs@, old(text)@, *old(style), old(stack)@), tag@, closing) {
            None => !ok,
            Some(st2) => ok && st2 == mk_state(segs@, final(text)@, *final(style), final(stack)@),
        },
{
    let toks = split_whitespace(tag);
    let name: String = if toks.len() > 0 {
        let t0 = string_from_chars(&toks[0]);
        to_lower(t0.as_str())
    } else {
        String::new()
    };
    proof {
        reveal_strlit("font");
        if toks@.len() > 0 {
            assert(tokens(tag@)[0] == toks@[0]@);
        }
        assert(name@ == tag_name(tag@));
    }
    if closing {
        let n = stack.len();
        if n > 0 && str_eq(stack[n - 1].as_str(), name.as_str()) {
            stack.pop();
            *style = set_flag_exec(*style, name.as_str(), false);
            proof {
                assert(stack_view(stack@) =~= stack_view(old(stack)@).drop_last());
            }
        }
        return true;
    }
    stack.push(name.clone());
    proof {
        assert(stack_view(stack@) =~= stack_view(old(stack)@).push(name@));
    }
    *style = set_flag_exec(*style, name.as_str(), true);
    if str_eq(name.as_str(), "br") || str_eq(name.as_str(), "br/") {
        text.push('\n');
        return true;
    }
    if str_eq(name.as_str(), "font") {
        match font_color_exec(style.color, &toks) {
            None => {
                return false;
            },
            Some(c) => {
                *style = TextStyle { color: c, ..*style };
                return true;
            },
        }
    }
    true
}

/// Parse HTML-styled text into styled segments, or `None` where a font
/// colour value would be sliced inside a character.
pub fn parse_html_segments_checked(html: &str) -> (r: Option<Vec<StyledSegment>>)
    ensures
        match html_segments(html@) {
            None => r is None,
            Some(v) => r is Some && segments_view(r->0@) == v,
        },
{
    let s = chars_of(html);
    let mut segs: Vec<StyledSegment> = Vec::new();
    let mut text: Vec<char> = Vec::new();
    let mut style = TextStyle::default();
    let mut stack: Vec<String> = Vec::new();
    let mut i: usize = 0;
    proof {
        assert(segments_view(segs@) =~= Seq::<(Seq<char>, TextStyle)>::empty());
        assert(stack_view(stack@) =~= Seq::<Seq<char>>::empty());
        assert(text@ =~= Seq::<char>::empty());
        assert(mk_state(segs@, text@, style, stack@) == initial_html_state());
    }
    while i < s.len()
        invariant
            s@ == html@,
            i <= s@.len(),
            html_run(s@, 0, initial_html_state()) == html_run(s@, i as int, mk_state(segs@, text@, style, stack@)),
        decreases s@.len() - i,
    {
        let c = s[i];
        let ghost st = mk_state(segs@, text@, style, stack@);
        let mut is_tag = false;
        let mut close: usize = 0;
        if c == '<' {
            match find_close_exec(&s, i + 1) {
                Some(j) => {
                    if j > i + 1 && (s[i + 1] == '/' || is_alphabetic(s[i + 1])) {
                        is_tag = true;
                        close = j;
                    }
                },
                None => {},
            }
            proof {
                lemma_close_from_range(s@, i + 1, if i + 1 + 50 < s@.len() { i + 1 + 50 } else { s@.len() as int });
            }
        }
        if is_tag {
            if text.len() > 0 {
                let seg = StyledSegment { text: string_from_chars(&text), style };
                segs.push(seg);
                text = Vec::new();
                proof {
                    assert(segments_view(segs@) =~= st.segs.push((st.text, st.style)));
                }
            }
            proof {
                assert(mk_state(segs@, text@, style, stack@) =~~= flush(st));
            }
            let closing = s[i + 1] == '/';
            let from = if closing { i + 2 } else { i + 1 };
            let tag = copy_range(&s, from, close);
            let ok = apply_tag_exec(&tag, closing, &segs, &mut text, &mut style, &mut stack);
            if !ok {
                return None;
            }
            i = close + 1;
        } else {
            text.push(c);
            proof {
                assert(mk_state(segs@, text@, style, stack@) =~~= HtmlState { text: st.text.push(s@[i as int]), ..st });
            }
            i += 1;
        }
    }
    if text.len() > 0 {
        let seg = StyledSegment { text: string_from_chars(&text), style };
        segs.push(seg);
    }
    proof {
        assert(segments_view(segs@) =~= html_segments(html@)->0);
    }
    Some(segs)
}


/// Parse HTML-styled text into styled segments.
pub fn parse_html_to_segments(html: &str) -> (r: Vec<StyledSegment>)
    requires
        html_segments(html@) is Some,
    ensures
        segments_view(r@) == html_segments(html@)->0,
{
    match parse_html_segments_checked(html) {
        Some(v) => v,
        None => Vec::new(),
    }
}

/// The segments of a parse result.
pub open spec fn parsed_segments(p: ParsedSubtitle) -> Seq<(Seq<char>, TextStyle)> {
    match p {
        ParsedSubtitle::Text(t) => segments_view(t.segments@),
    }
}

/// The segments of an optional parse result.
pub open spec fn parsed_view(p: Option<ParsedSubtitle>) -> Option<Seq<(Seq<char>, TextStyle)>> {
    match p {
        None => None,
        Some(q) => Some(parsed_segments(q)),
    }
}

/// What plain text parses to: one unstyled segment, nothing when blank.
pub open spec fn plain_result(text: Seq<char>) -> Option<Seq<(Seq<char>, TextStyle)>> {
    if blank(text) {
        None
    } else {
        Some(seq![(text, default_style())])
    }
}

/// What HTML-styled text parses to: its segments, nothing when there are none.
pub open spec fn html_result(text: Seq<char>) -> Option<Seq<(Seq<char>, TextStyle)>> {
    let v = html_segments(text)->0;
    if v.len() == 0 {
        None
    } else {
        Some(v)
    }
}

fn is_blank(s: &str) -> (b: bool)
    ensures
        b == blank(s@),
{
    let v = chars_of(s);
    let mut i: usize = 0;
    while i < v.len()
        invariant
            v@ == s@,
            i <= v@.len(),
            forall|t: int| 0 <= t < i ==> is_ws(#[trigger] v@[t]),
        decreases v@.len() - i,
    {
        if !is_whitespace(v[i]) {
            return false;
        }
        i += 1;
    }
    true
}

/// Parse a plain-text payload: one unstyled segment holding the whole text
/// (decoded with invalid UTF-8 replaced), `None` when it is blank.
pub fn parse_plain_text(data: &[u8]) -> (r: Option<ParsedSubtitle>)
    ensures
        parsed_view(r) == plain_result(utf8_lossy(data@)),
{
    let text = from_utf8_lossy(data);
    if is_blank(text.as_str()) {
        return None;
    }
    let mut segments: Vec<StyledSegment> = Vec::new();
    segments.push(StyledSegment { text, style: TextStyle::default() });
    proof {
        assert(segments_view(segments@) =~= seq![(utf8_lossy(data@), default_style())]);
    }
    Some(ParsedSubtitle::Text(TextSubtitle { segments }))
}

/// Parse an HTML-styled payload into styled segments, `None` when it yields
/// no text.
pub fn parse_html(data: &[u8]) -> (r: Option<ParsedSubtitle>)
    requires
        html_segments(utf8_lossy(data@)) is Some,
    ensures
        parsed_view(r) == html_result(utf8_lossy(data@)),
{
    let html = from_utf8_lossy(data);
    let segments = parse_html_to_segments(html.as_str());
    if segments.len() == 0 {
        return None;
    }
    Some(ParsedSubtitle::Text(TextSubtitle { segments }))
}

/// DVB bitmap subtitles are not decoded: always `None`.
pub fn parse_dvb(data: &[u8]) -> (r: Option<ParsedSubtitle>)
    ensures
        r is None,
{
    None
}

/// DVD bitmap subtitles are not decoded: always `None`.
pub fn parse_dvd_sub(data: &[u8]) -> (r: Option<ParsedSubtitle>)
    ensures
        r is None,
{
    None
}

/// Why a payload could not be parsed here.
#[derive(Debug, Clone, Copy, PartialEq, Eq, Structural)]
pub enum SubtitleParseError {
    /// The format is decoded by a parser that is not part of this library
    /// (SRT, WebVTT, ASS/SSA, PGS).
    ParserUnavailable(SubtitleFormat),
    /// A `<font color=...>` value of six bytes after `#` splits a character
    /// where its colour channels are sliced.
    ColorSplitsCharacter,
}

/// Whether a format is decoded by a parser outside this library.
pub open spec fn external_format(f: SubtitleFormat) -> bool {
    ||| f == SubtitleFormat::Srt
    ||| f == SubtitleFormat::WebVtt
    ||| f == SubtitleFormat::Ass
    ||| f == SubtitleFormat::Ssa
    ||| f == SubtitleFormat::Pgs
}

/// The result of parsing a payload of format `f` whose decoded text is `text`.
pub open spec fn subtitle_result(f: SubtitleFormat, text: Seq<char>) -> Result<Option<Seq<(Seq<char>, TextStyle)>>, SubtitleParseError> {
    if external_format(f) {
        Err(SubtitleParseError::ParserUnavailable(f))
    } else if f == SubtitleFormat::Html {
        Ok(html_result(text))
    } else if f == SubtitleFormat::Dvb || f == SubtitleFormat::DvdSub {
        Ok(None)
    } else {
        Ok(plain_result(text))
    }
}

/// The segments of a parse outcome.
pub open spec fn outcome_view(r: Result<Option<ParsedSubtitle>, SubtitleParseError>) -> Result<Option<Seq<(Seq<char>, TextStyle)>>, SubtitleParseError> {
    match r {
        Ok(p) => Ok(parsed_view(p)),
        Err(e) => Err(e),
    }
}

/// Parse a subtitle payload by its format. Plain text and unknown formats
/// parse as plain text; DVB and DVD bitmaps give nothing.
pub fn parse_subtitle(data: &SubtitleData) -> (r: Result<Option<ParsedSubtitle>, SubtitleParseError>)
    requires
        data.format == SubtitleFormat::Html ==> html_segments(utf8_lossy(data.data@)) is Some,
    ensures
        outcome_view(r) == subtitle_result(data.format, utf8_lossy(data.data@)),
{
    let bytes = data.data.as_slice();
    match data.format {
        SubtitleFormat::PlainText => Ok(parse_plain_text(bytes)),
        SubtitleFormat::Html => Ok(parse_html(bytes)),
        SubtitleFormat::Dvb => Ok(parse_dvb(bytes)),
        SubtitleFormat::DvdSub => Ok(parse_dvd_sub(bytes)),
        SubtitleFormat::Unknown => Ok(parse_plain_text(bytes)),
        other => Err(SubtitleParseError::ParserUnavailable(other)),
    }
}

/// Parse a subtitle payload, first checking that an HTML payload's font
/// colours can be read; `Err(ColorSplitsCharacter)` where one cannot.
pub fn parse_subtitle_checked(data: &SubtitleData) -> (r: Result<Option<ParsedSubtitle>, SubtitleParseError>)
    ensures
        (data.format == SubtitleFormat::Html && html_segments(utf8_lossy(data.data@)) is None)
            ==> r == Err::<Option<ParsedSubtitle>, SubtitleParseError>(SubtitleParseError::ColorSplitsCharacter),
        !(data.format == SubtitleFormat::Html && html_segments(utf8_lossy(data.data@)) is None)
            ==> outcome_view(r) == subtitle_result(data.format, utf8_lossy(data.data@)),
{
    if matches!(data.format, SubtitleFormat::Html) {
        let html = from_utf8_lossy(data.data.as_slice());
        match parse_html_segments_checked(html.as_str()) {
            None => {
                return Err(SubtitleParseError::ColorSplitsCharacter);
            },
            Some(_) => {},
        }
    }
    parse_subtitle(data)
}

/// Each formatting tag switches its own flag and nothing else: `i` and `em`
/// italic, `b` and `strong` bold, `u` underline, `s` and `strike`
/// strikethrough; the colour is never touched, and any other tag name leaves
/// the style as it is.
pub proof fn lemma_tag_flags(style: TextStyle, name: Seq<char>, on: bool)
    ensures
        ({
            let r = set_flag(style, name, on);
            &&& r.color == style.color
            &&& r.italic == (if name == "i"@ || name == "em"@ { on } else { style.italic })
            &&& r.bold == (if name == "b"@ || name == "strong"@ { on } else { style.bold })
            &&& r.underline == (if name == "u"@ { on } else { style.underline })
            &&& r.strikethrough == (if name == "s"@ || name == "strike"@ { on } else { style.strikethrough })
        }),
{
    reveal_strlit("i");
    reveal_strlit("em");
    reveal_strlit("b");
    reveal_strlit("strong");
    reveal_strlit("u");
    reveal_strlit("s");
    reveal_strlit("strike");
    assert("i"@[0] == 'i' && "em"@[0] == 'e' && "b"@[0] == 'b' && "strong"@[0] == 's');
    assert("u"@[0] == 'u' && "s"@[0] == 's' && "strike"@[0] == 's');
    assert("i"@.len() == 1 && "b"@.len() == 1 && "u"@.len() == 1 && "s"@.len() == 1);
    assert("em"@.len() == 2 && "strong"@.len() == 6 && "strike"@.len() == 6);
    assert("strong"@[3] == 'o' && "strike"@[3] == 'i');
    if name.len() > 0 {
        assert(name == "u"@ ==> name[0] == 'u');
        assert(name == "i"@ ==> name[0] == 'i');
        assert(name == "b"@ ==> name[0] == 'b');
        assert(name == "em"@ ==> name[0] == 'e');
        assert(name == "strong"@ ==> name[0] == 's' && name.len() == 6 && name[3] == 'o');
        assert(name == "s"@ ==> name[0] == 's' && name.len() == 1);
        assert(name == "strike"@ ==> name[0] == 's' && name.len() == 6 && name[3] == 'i');
    }

}

/// The colour names a subtitle may use, with their RGB values: white and
/// black, the primaries red, green and blue at full intensity, and their
/// pairwise mixtures yellow, cyan and magenta; no other name is a colour.
pub proof fn lemma_named_colors(lc: Seq<char>)
    ensures
        (lc == "white"@) == (named_color(lc) == Some(Rgb { r: 255, g: 255, b: 255 })),
        (lc == "black"@) == (named_color(lc) == Some(Rgb { r: 0, g: 0, b: 0 })),
        (lc == "red"@) == (named_color(lc) == Some(Rgb { r: 255, g: 0, b: 0 })),
        (lc == "green"@) == (named_color(lc) == Some(Rgb { r: 0, g: 255, b: 0 })),
        (lc == "blue"@) == (named_color(lc) == Some(Rgb { r: 0, g: 0, b: 255 })),
        (lc == "yellow"@) == (named_color(lc) == Some(Rgb { r: 255, g: 255, b: 0 })),
        (lc == "cyan"@) == (named_color(lc) == Some(Rgb { r: 0, g: 255, b: 255 })),
        (lc == "magenta"@) == (named_color(lc) == Some(Rgb { r: 255, g: 0, b: 255 })),
{
    reveal_strlit("white");
    assert("white"@.len() == 5 && "white"@[0] == 'w' && "white"@[1] == 'h' && "white"@[2] == 'i' && "white"@[3] == 't' && "white"@[4] == 'e');
    reveal_strlit("black");
    assert("black"@.len() == 5 && "black"@[0] == 'b' && "black"@[1] == 'l' && "black"@[2] == 'a' && "black"@[3] == 'c' && "black"@[4] == 'k');
    reveal_strlit("red");
    assert("red"@.len() == 3 && "red"@[0] == 'r' && "red"@[1] == 'e' && "red"@[2] == 'd');
    reveal_strlit("green");
    assert("green"@.len() == 5 && "green"@[0] == 'g' && "green"@[1] == 'r' && "green"@[2] == 'e' && "green"@[3] == 'e' && "green"@[4] == 'n');
    reveal_strlit("blue");
    assert("blue"@.len() == 4 && "blue"@[0] == 'b' && "blue"@[1] == 'l' && "blue"@[2] == 'u' && "blue"@[3] == 'e');
    reveal_strlit("yellow");
    assert("yellow"@.len() == 6 && "yellow"@[0] == 'y' && "yellow"@[1] == 'e' && "yellow"@[2] == 'l' && "yellow"@[3] == 'l' && "yellow"@[4] == 'o' && "yellow"@[5] == 'w');
    reveal_strlit("cyan");
    assert("cyan"@.len() == 4 && "cyan"@[0] == 'c' && "cyan"@[1] == 'y' && "cyan"@[2] == 'a' && "cyan"@[3] == 'n');
    reveal_strlit("magenta");
    assert("magenta"@.len() == 7 && "magenta"@[0] == 'm' && "magenta"@[1] == 'a' && "magenta"@[2] == 'g' && "magenta"@[3] == 'e' && "magenta"@[4] == 'n' && "magenta"@[5] == 't' && "magenta"@[6] == 'a');
}

/// Hex digits read as their value, upper and lower case alike: `0`-`9` as
/// 0-9 and `a`-`f` / `A`-`F` as 10-15; a pair of digits is the first digit
/// times sixteen plus the second.
pub proof fn lemma_hex_digits(d: u32, a: char, b: char)
    ensures
        d < 10 ==> hex_val((0x30 + d) as char) == Some(d as u8),
        d < 6 ==> hex_val((0x61 + d) as char) == Some((10 + d) as u8),
        d < 6 ==> hex_val((0x41 + d) as char) == Some((10 + d) as u8),
        a != '+' && hex_val(a) is Some && hex_val(b) is Some ==> hex_pair(a, b) == Some(
            (16 * hex_val(a)->0 + hex_val(b)->0) as u8,
        ),
        hex_val(a) is Some ==> hex_val(a)->0 < 16,
{
}

/// An opening formatting tag followed by its closing tag leaves the style
/// with that flag off and the other flags as they were.
pub proof fn lemma_tag_close_clears(style: TextStyle, name: Seq<char>)
    ensures
        set_flag(set_flag(style, name, true), name, false) == set_flag(style, name, false),
        !style.italic && !style.bold && !style.underline && !style.strikethrough ==> set_flag(
            set_flag(style, name, true),
            name,
            false,
        ) == style,
{
}

} // verus!

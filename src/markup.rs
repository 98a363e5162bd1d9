//! Conversion of description markup into styled text.
//!
//! Descriptions look like HTML but are often not well formed. Four tags are
//! understood: `b` and `i` (bold and italic, which nest), `p` (paragraphs)
//! and `br` (line breaks). Paragraph tags come in two conventions: proper
//! `<p>..</p>` containers, or a lone `<p>` used as a separator between blocks.
//! The convention is decided once for the whole input, then a single scan
//! produces the fragments.
use vstd::prelude::*;

use crate::text::{chars_of, is_whitespace, is_ws, string_of, trim_end, trim_end_in_place};

verus! {

/// The emphasis of a run of text.
#[derive(Debug, Clone, Copy, PartialEq, Eq, Structural)]
pub struct TextStyle {
    pub bold: bool,
    pub italic: bool,
}

impl TextStyle {
    pub fn unstyled() -> (r: Self)
        ensures
            !r.bold && !r.italic,
    {
        TextStyle { bold: false, italic: false }
    }

    pub fn bold() -> (r: Self)
        ensures
            r.bold && !r.italic,
    {
        TextStyle { bold: true, italic: false }
    }

    pub fn italic() -> (r: Self)
        ensures
            !r.bold && r.italic,
    {
        TextStyle { bold: false, italic: true }
    }

    pub fn bold_italic() -> (r: Self)
        ensures
            r.bold && r.italic,
    {
        TextStyle { bold: true, italic: true }
    }
}

/// A run of text that carries one style throughout.
#[derive(Debug, Clone, PartialEq, Eq)]
pub struct TextFragment {
    pub text: String,
    pub style: TextStyle,
}

impl View for TextFragment {
    type V = (Seq<char>, TextStyle);

    open spec fn view(&self) -> (Seq<char>, TextStyle) {
        (self.text@, self.style)
    }
}

impl TextFragment {
    pub fn new(text: &str, style: TextStyle) -> (r: Self)
        ensures
            r@ == (text@, style),
    {
        TextFragment { text: string_of(&chars_of(text)), style }
    }
}

/// The fragments of `v` as plain values.
pub open spec fn frags_view(v: Seq<TextFragment>) -> Seq<(Seq<char>, TextStyle)> {
    v.map_values(|f: TextFragment| f@)
}

/// Styled text: its fragments in reading order.
#[derive(Debug, Clone, PartialEq, Eq)]
pub struct RichText {
    pub fragments: Vec<TextFragment>,
}

impl View for RichText {
    type V = Seq<(Seq<char>, TextStyle)>;

    open spec fn view(&self) -> Seq<(Seq<char>, TextStyle)> {
        frags_view(self.fragments@)
    }
}

/// The four tags that the markup understands.
#[derive(Debug, Clone, Copy, PartialEq, Eq, Structural)]
pub enum TagType {
    Bold,
    Italic,
    Paragraph,
    Linebreak,
}

impl TagType {
    pub open spec fn spec_is_style(self) -> bool {
        self is Bold || self is Italic
    }

    /// Whether the tag changes the style rather than the layout.
    pub fn is_style(self) -> (r: bool)
        ensures
            r == self.spec_is_style(),
    {
        match self {
            TagType::Bold | TagType::Italic => true,
            _ => false,
        }
    }
}

/// A recognised tag: its kind, and whether it opens or closes.
#[derive(Debug, Clone, Copy, PartialEq, Eq, Structural)]
pub struct Tag {
    pub ty: TagType,
    pub open: bool,
}

/// The position of the first `c` in `s` at or after `from`.
pub open spec fn find_from(s: Seq<char>, c: char, from: nat) -> Option<nat>
    decreases s.len() - from,
{
    if from >= s.len() {
        None
    } else if s[from as int] == c {
        Some(from)
    } else {
        find_from(s, c, from + 1)
    }
}

pub proof fn lemma_find_from_bounds(s: Seq<char>, c: char, from: nat)
    ensures
        match find_from(s, c, from) {
            Some(k) => from <= k < s.len() && s[k as int] == c,
            None => true,
        },
    decreases s.len() - from,
{
    if from < s.len() && s[from as int] != c {
        lemma_find_from_bounds(s, c, from + 1);
    }
}

/// The tag kind that a tag name denotes, if any.
pub open spec fn tag_type_named(name: Seq<char>) -> Option<TagType> {
    if name == seq!['p'] {
        Some(TagType::Paragraph)
    } else if name == seq!['b', 'r'] {
        Some(TagType::Linebreak)
    } else if name == seq!['b'] {
        Some(TagType::Bold)
    } else if name == seq!['i'] {
        Some(TagType::Italic)
    } else {
        None
    }
}

/// Whether a tag that starts `s` is a closing one: a slash follows the `<`.
pub open spec fn is_closing(s: Seq<char>) -> bool {
    s.len() > 1 && s[1] == '/'
}

/// The tag that starts `s`, with the number of characters it spans: the name
/// is what stands between the `<` (or `</`) and the first `>`.
pub open spec fn tag_prefix(s: Seq<char>) -> Option<(Tag, nat)> {
    let open = !is_closing(s);
    let start: nat = if open { 1 } else { 2 };
    match find_from(s, '>', 0) {
        None => None,
        Some(close) => if close < start {
            None
        } else {
            match tag_type_named(s.subrange(start as int, close as int)) {
                Some(ty) => Some((Tag { ty, open }, close + 1)),
                None => None,
            }
        },
    }
}

proof fn lemma_tag_names_differ()
    ensures
        seq!['p'] != seq!['b'],
        seq!['p'] != seq!['i'],
        seq!['b'] != seq!['i'],
        seq!['p'] != seq!['b', 'r'],
        seq!['b'] != seq!['b', 'r'],
        seq!['i'] != seq!['b', 'r'],
{
    assert(seq!['p'][0] == 'p');
    assert(seq!['b'][0] == 'b');
    assert(seq!['i'][0] == 'i');
    assert(seq!['b', 'r'].len() == 2);
}

/// Recognises the tag at the start of `text`, which starts with `<`: its kind
/// and openness, and how many characters it spans (both markers included).
/// Any other name, or no `>` at all, is no tag.
pub fn try_parse_tag(text: &[char]) -> (r: Option<(Tag, usize)>)
    requires
        text@.len() > 0,
        text@[0] == '<',
    ensures
        match r {
            Some((tag, n)) => tag_prefix(text@) == Some((tag, n as nat)),
            None => tag_prefix(text@) is None,
        },
{
    let len = text.len();
    let open = !(len > 1 && text[1] == '/');
    let start: usize = if open { 1 } else { 2 };
    let mut close: usize = 0;
    while close < len && text[close] != '>'
        invariant
            close <= len,
            len == text@.len(),
            find_from(text@, '>', 0) == find_from(text@, '>', close as nat),
        decreases len - close,
    {
        close = close + 1;
    }
    if close >= len || close < start {
        return None;
    }
    assert(find_from(text@, '>', close as nat) == Some(close as nat));
    let name_len = close - start;
    let ty = if name_len == 1 && text[start] == 'p' {
        TagType::Paragraph
    } else if name_len == 2 && text[start] == 'b' && text[start + 1] == 'r' {
        TagType::Linebreak
    } else if name_len == 1 && text[start] == 'b' {
        TagType::Bold
    } else if name_len == 1 && text[start] == 'i' {
        TagType::Italic
    } else {
        proof {
            let name = text@.subrange(start as int, close as int);
            assert(seq!['p'][0] == 'p' && seq!['p'].len() == 1);
            assert(seq!['b'][0] == 'b' && seq!['b'].len() == 1);
            assert(seq!['i'][0] == 'i' && seq!['i'].len() == 1);
            assert(seq!['b', 'r'][0] == 'b' && seq!['b', 'r'][1] == 'r' && seq!['b', 'r'].len()
                == 2);
            if name_len >= 1 {
                assert(name[0] == text@[start as int]);
            }
            if name_len == 2 {
                assert(name[1] == text@[start + 1]);
            }
            assert(tag_type_named(name) is None);
        }
        return None;
    };
    proof {
        let name = text@.subrange(start as int, close as int);
        lemma_tag_names_differ();
        if ty is Paragraph {
            assert(name =~= seq!['p']);
        } else if ty is Linebreak {
            assert(name =~= seq!['b', 'r']);
        } else if ty is Bold {
            assert(name =~= seq!['b']);
        } else {
            assert(name =~= seq!['i']);
        }
    }
    Some((Tag { ty, open }, close + 1))
}

} // verus!

verus! {

/// Why a description could not be converted.
#[derive(Debug, Clone, Copy, PartialEq, Eq, Structural)]
pub enum ParseError {
    /// A closing `</b>` or `</i>` with no style tag open.
    UnmatchedClosingTag,
}

/// How paragraph tags are read, decided once for a whole input.
#[derive(Debug, Clone, Copy, PartialEq, Eq, Structural)]
pub enum ParagraphConvention {
    /// `<p>..</p>` containers: a closing `</p>` breaks the line.
    WellFormed,
    /// Lone `<p>` separators: every paragraph tag breaks the line.
    Separator,
}

/// Whether `pat` occurs in `text` at position `i`.
pub open spec fn occurs_at(text: Seq<char>, i: int, pat: Seq<char>) -> bool {
    0 <= i && i + pat.len() <= text.len() && text.subrange(i, i + pat.len()) == pat
}

pub open spec fn closing_paragraph() -> Seq<char> {
    seq!['<', '/', 'p', '>']
}

/// Inputs that close a paragraph somewhere use well-formed paragraphs.
pub open spec fn convention_of(text: Seq<char>) -> ParagraphConvention {
    if exists|i: int| occurs_at(text, i, closing_paragraph()) {
        ParagraphConvention::WellFormed
    } else {
        ParagraphConvention::Separator
    }
}

/// Decides the paragraph convention of `text` in one forward search for `</p>`.
pub fn detect_convention(text: &[char]) -> (r: ParagraphConvention)
    ensures
        r == convention_of(text@),
{
    let len = text.len();
    let mut i: usize = 0;
    while len >= 4 && i <= len - 4
        invariant
            len == text@.len(),
            i <= len,
            forall|j: int| 0 <= j < i ==> !occurs_at(text@, j, closing_paragraph()),
        decreases len - i,
    {
        if text[i] == '<' && text[i + 1] == '/' && text[i + 2] == 'p' && text[i + 3] == '>' {
            assert(text@.subrange(i as int, i + 4) =~= closing_paragraph());
            assert(occurs_at(text@, i as int, closing_paragraph()));
            return ParagraphConvention::WellFormed;
        }
        proof {
            assert(closing_paragraph()[0] == '<' && closing_paragraph()[1] == '/'
                && closing_paragraph()[2] == 'p' && closing_paragraph()[3] == '>');
            if occurs_at(text@, i as int, closing_paragraph()) {
                let sub = text@.subrange(i as int, i + 4);
                assert(sub[0] == text@[i as int] && sub[1] == text@[i + 1] && sub[2] == text@[i
                    + 2] && sub[3] == text@[i + 3]);
            }
        }
        i = i + 1;
    }
    assert(forall|j: int| #[trigger] occurs_at(text@, j, closing_paragraph()) ==> j < i);
    ParagraphConvention::Separator
}

/// The tag that starts at position `i` of `text`, if one does.
pub open spec fn tag_at(text: Seq<char>, i: int) -> Option<(Tag, nat)> {
    if 0 <= i < text.len() && text[i] == '<' {
        tag_prefix(text.subrange(i, text.len() as int))
    } else {
        None
    }
}

/// Whether a tag ends the current line under convention `conv`.
pub open spec fn spec_forces_break(conv: ParagraphConvention, tag: Tag) -> bool {
    match tag.ty {
        TagType::Linebreak => true,
        TagType::Paragraph => conv is Separator || !tag.open,
        _ => false,
    }
}

/// Whether a tag ends the current line: a line break always does; a
/// paragraph tag does when it closes, or under the separator convention.
pub fn forces_break(conv: ParagraphConvention, tag: Tag) -> (r: bool)
    ensures
        r == spec_forces_break(conv, tag),
{
    match tag.ty {
        TagType::Linebreak => true,
        TagType::Paragraph => match conv {
            ParagraphConvention::Separator => true,
            ParagraphConvention::WellFormed => !tag.open,
        },
        _ => false,
    }
}

/// The style after opening a tag of kind `ty` in style `style`.
pub open spec fn with_attr(style: TextStyle, ty: TagType) -> TextStyle {
    match ty {
        TagType::Bold => TextStyle { bold: true, ..style },
        TagType::Italic => TextStyle { italic: true, ..style },
        _ => style,
    }
}

/// A fragment as plain values: its text and its style.
pub type FragmentView = (Seq<char>, TextStyle);

/// The state of a scan: the text gathered since the last style change, the
/// style in force, the styles to return to as tags close, the fragments
/// emitted so far, and whether whitespace after a break is being skipped.
pub struct ScanState {
    pub cur: Seq<char>,
    pub style: TextStyle,
    pub stack: Seq<TextStyle>,
    pub frags: Seq<FragmentView>,
    pub skipping: bool,
}

pub open spec fn initial_state() -> ScanState {
    ScanState {
        cur: Seq::empty(),
        style: TextStyle { bold: false, italic: false },
        stack: Seq::empty(),
        frags: Seq::empty(),
        skipping: false,
    }
}

/// What a recognised tag does to the scan; `None` where a style tag closes
/// with none open. A closing style tag restores the saved style whatever
/// attribute it names.
pub open spec fn apply_tag(conv: ParagraphConvention, tag: Tag, st: ScanState) -> Option<
    ScanState,
> {
    if tag.ty.spec_is_style() {
        let frags = st.frags.push((st.cur, st.style));
        if tag.open {
            Some(
                ScanState {
                    cur: Seq::empty(),
                    style: with_attr(st.style, tag.ty),
                    stack: st.stack.push(st.style),
                    frags,
                    skipping: false,
                },
            )
        } else if st.stack.len() == 0 {
            None
        } else {
            Some(
                ScanState {
                    cur: Seq::empty(),
                    style: st.stack.last(),
                    stack: st.stack.drop_last(),
                    frags,
                    skipping: false,
                },
            )
        }
    } else if spec_forces_break(conv, tag) {
        Some(ScanState { cur: trim_end(st.cur).push('\n'), skipping: true, ..st })
    } else {
        Some(ScanState { skipping: false, ..st })
    }
}

/// The scan of `text` from position `i` on, in state `st`: whitespace right
/// after a break is skipped, a recognised tag is applied and passed over, and
/// any other character joins the current text.
pub open spec fn scan(text: Seq<char>, conv: ParagraphConvention, i: nat, st: ScanState) -> Option<
    ScanState,
>
    decreases text.len() - i
    via scan_decreases
{
    if i >= text.len() {
        Some(st)
    } else if st.skipping && is_ws(text[i as int]) {
        scan(text, conv, i + 1, st)
    } else {
        match tag_at(text, i as int) {
            Some((tag, n)) => match apply_tag(conv, tag, st) {
                Some(next) => scan(text, conv, i + n, next),
                None => None,
            },
            None => scan(
                text,
                conv,
                i + 1,
                ScanState { cur: st.cur.push(text[i as int]), skipping: false, ..st },
            ),
        }
    }
}

/// A tag spans at least one character and ends within the text.
pub proof fn lemma_tag_at_bounds(text: Seq<char>, i: int)
    ensures
        match tag_at(text, i) {
            Some((_, n)) => 0 < n && i + n <= text.len(),
            None => true,
        },
{
    if 0 <= i < text.len() && text[i] == '<' {
        lemma_find_from_bounds(text.subrange(i, text.len() as int), '>', 0);
    }
}

#[via_fn]
proof fn scan_decreases(text: Seq<char>, conv: ParagraphConvention, i: nat, st: ScanState) {
    lemma_tag_at_bounds(text, i as int);
}

/// `frags` without the fragments whose text is empty.
pub open spec fn drop_empty(frags: Seq<FragmentView>) -> Seq<FragmentView>
    decreases frags.len(),
{
    if frags.len() == 0 {
        frags
    } else if frags.last().0.len() > 0 {
        drop_empty(frags.drop_last()).push(frags.last())
    } else {
        drop_empty(frags.drop_last())
    }
}

/// `frags` with the whitespace at its end removed: the last fragment loses
/// its trailing whitespace, and where nothing is left of it, it goes and the
/// one before is trimmed in turn.
pub open spec fn trim_tail(frags: Seq<FragmentView>) -> Seq<FragmentView>
    decreases frags.len(),
{
    if frags.len() == 0 {
        frags
    } else if trim_end(frags.last().0).len() == 0 {
        trim_tail(frags.drop_last())
    } else {
        frags.update(frags.len() - 1, (trim_end(frags.last().0), frags.last().1))
    }
}

/// The result of a finished scan: the pending text becomes the last fragment,
/// empty fragments go, and the whitespace at the end of the document goes.
pub open spec fn finish(st: ScanState) -> Seq<FragmentView> {
    trim_tail(drop_empty(st.frags.push((st.cur, st.style))))
}

/// The styled text that `text` converts to, or `None` where a style tag
/// closes with none open.
pub open spec fn converted(text: Seq<char>) -> Option<Seq<FragmentView>> {
    match scan(text, convention_of(text), 0, initial_state()) {
        Some(st) => Some(finish(st)),
        None => None,
    }
}

} // verus!

verus! {

/// Fragments under construction, as plain values.
pub open spec fn pieces_view(pieces: Seq<(Vec<char>, TextStyle)>) -> Seq<FragmentView> {
    pieces.map_values(|p: (Vec<char>, TextStyle)| (p.0@, p.1))
}

proof fn lemma_drop_empty_push(frags: Seq<FragmentView>, f: FragmentView)
    ensures
        drop_empty(frags.push(f)) == if f.0.len() > 0 {
            drop_empty(frags).push(f)
        } else {
            drop_empty(frags)
        },
{
    assert(frags.push(f).drop_last() =~= frags);
}

/// Emits `text` in `style` unless it is empty.
fn flush(pieces: &mut Vec<(Vec<char>, TextStyle)>, text: Vec<char>, style: TextStyle)
    ensures
        pieces_view(final(pieces)@) == if text@.len() > 0 {
            pieces_view(old(pieces)@).push((text@, style))
        } else {
            pieces_view(old(pieces)@)
        },
{
    if text.len() > 0 {
        let ghost before = pieces@;
        let ghost t = text@;
        pieces.push((text, style));
        assert(pieces_view(pieces@) =~= pieces_view(before).push((t, style)));
    }
}

/// Removes the whitespace at the end of the fragments, as `trim_tail` says.
fn trim_tail_in_place(pieces: &mut Vec<(Vec<char>, TextStyle)>)
    ensures
        pieces_view(final(pieces)@) == trim_tail(pieces_view(old(pieces)@)),
{
    let mut trimmed = false;
    while !trimmed
        invariant
            trimmed ==> pieces_view(pieces@) == trim_tail(pieces_view(old(pieces)@)),
            !trimmed ==> trim_tail(pieces_view(pieces@)) == trim_tail(pieces_view(old(pieces)@)),
        decreases pieces@.len() + if trimmed {
            0int
        } else {
            1int
        },
    {
        let ghost before = pieces@;
        match pieces.pop() {
            None => {
                trimmed = true;
                assert(pieces_view(pieces@) =~= Seq::<FragmentView>::empty());
            },
            Some((mut last, last_style)) => {
                let ghost rest = pieces@;
                assert(pieces_view(rest) =~= pieces_view(before).drop_last());
                assert(pieces_view(before).last() == (last@, last_style));
                trim_end_in_place(&mut last);
                if last.len() > 0 {
                    let ghost t = last@;
                    pieces.push((last, last_style));
                    assert(pieces_view(pieces@) =~= pieces_view(before).update(
                        before.len() - 1,
                        (t, last_style),
                    ));
                    trimmed = true;
                }
            },
        }
    }
}

/// Converts description markup into styled text.
///
/// Text between tags is kept as it stands; `<b>` and `<i>` start bold and
/// italic runs that nest, and each closing style tag returns to the style in
/// force before the matching opening one. Line breaks, and paragraph tags as
/// the input's convention reads them, end the line: trailing whitespace before
/// them and leading whitespace after them is dropped. Empty fragments are left
/// out, and the end of the document is trimmed. A closing style tag with none
/// open is an error.
pub fn parse_text(text: &str) -> (r: Result<RichText, ParseError>)
    ensures
        match r {
            Ok(rich) => converted(text@) == Some(rich@),
            Err(_) => converted(text@) is None,
        },
{
    let chars = chars_of(text);
    let conv = detect_convention(chars.as_slice());
    let n = chars.len();
    let mut i: usize = 0;
    let mut cur: Vec<char> = Vec::new();
    let mut style = TextStyle::unstyled();
    let mut stack: Vec<TextStyle> = Vec::new();
    let mut pieces: Vec<(Vec<char>, TextStyle)> = Vec::new();
    let mut skipping = false;
    let ghost mut frags: Seq<FragmentView> = Seq::empty();
    proof {
        assert(initial_state() == ScanState { cur: cur@, style, stack: stack@, frags, skipping });
    }
    while i < n
        invariant
            n == chars@.len(),
            i <= n,
            conv == convention_of(chars@),
            chars@ == text@,
            scan(chars@, conv, 0, initial_state()) == scan(
                chars@,
                conv,
                i as nat,
                ScanState { cur: cur@, style, stack: stack@, frags, skipping },
            ),
            drop_empty(frags) == pieces_view(pieces@),
        decreases n - i,
    {
        let c = chars[i];
        if skipping && is_whitespace(c) {
            i = i + 1;
        } else {
            let found = if c == '<' {
                try_parse_tag(vstd::slice::slice_subrange(chars.as_slice(), i, n))
            } else {
                None
            };
            proof {
                lemma_tag_at_bounds(chars@, i as int);
            }
            match found {
                Some((tag, len)) => {
                    assert(tag_at(chars@, i as int) == Some((tag, len as nat)));
                    if tag.ty.is_style() {
                        proof {
                            lemma_drop_empty_push(frags, (cur@, style));
                            frags = frags.push((cur@, style));
                        }
                        let mut text_so_far: Vec<char> = Vec::new();
                        std::mem::swap(&mut cur, &mut text_so_far);
                        flush(&mut pieces, text_so_far, style);
                        if tag.open {
                            stack.push(style);
                            match tag.ty {
                                TagType::Bold => style.bold = true,
                                TagType::Italic => style.italic = true,
                                _ => {},
                            }
                        } else {
                            match stack.pop() {
                                Some(saved) => style = saved,
                                None => return Err(ParseError::UnmatchedClosingTag),
                            }
                        }
                        skipping = false;
                    } else if forces_break(conv, tag) {
                        trim_end_in_place(&mut cur);
                        cur.push('\n');
                        skipping = true;
                    } else {
                        skipping = false;
                    }
                    i = i + len;
                },
                None => {
                    cur.push(c);
                    skipping = false;
                    i = i + 1;
                },
            }
        }
    }
    proof {
        lemma_drop_empty_push(frags, (cur@, style));
    }
    flush(&mut pieces, cur, style);
    trim_tail_in_place(&mut pieces);
    let mut done: Vec<TextFragment> = Vec::new();
    let mut k: usize = 0;
    while k < pieces.len()
        invariant
            k <= pieces@.len(),
            frags_view(done@) == pieces_view(pieces@).take(k as int),
        decreases pieces@.len() - k,
    {
        let f = TextFragment { text: string_of(&pieces[k].0), style: pieces[k].1 };
        assert(f@ == pieces_view(pieces@)[k as int]);
        let ghost before = done@;
        let ghost fv = f@;
        done.push(f);
        assert(frags_view(done@) =~= frags_view(before).push(fv));
        k = k + 1;
        assert(pieces_view(pieces@).take(k as int) =~= pieces_view(pieces@).take(k - 1).push(
            pieces_view(pieces@)[k - 1],
        ));
    }
    assert(pieces_view(pieces@).take(k as int) =~= pieces_view(pieces@));
    Ok(RichText { fragments: done })
}

} // verus!

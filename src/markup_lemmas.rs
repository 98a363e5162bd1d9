//! Facts about the markup conversion, proved over its specification.
use vstd::prelude::*;

use crate::markup::{
    apply_tag, converted, convention_of, drop_empty, find_from, finish, initial_state,
    lemma_tag_at_bounds, scan, tag_at, tag_prefix, trim_tail, with_attr, FragmentView,
    ParagraphConvention, ScanState, Tag, TagType, TextStyle,
};
use crate::text::{is_ws, trim_end};

verus! {

/// No position of `text` starts a recognised tag.
pub open spec fn has_no_tags(text: Seq<char>) -> bool {
    forall|i: int| 0 <= i < text.len() ==> #[trigger] tag_at(text, i) is None
}

proof fn lemma_scan_untagged(text: Seq<char>, conv: ParagraphConvention, i: nat, st: ScanState)
    requires
        has_no_tags(text),
        !st.skipping,
        i <= text.len(),
    ensures
        scan(text, conv, i, st) == Some(
            ScanState { cur: st.cur + text.subrange(i as int, text.len() as int), ..st },
        ),
    decreases text.len() - i,
{
    if i < text.len() {
        assert(tag_at(text, i as int) is None);
        let next = ScanState { cur: st.cur.push(text[i as int]), skipping: false, ..st };
        lemma_scan_untagged(text, conv, i + 1, next);
        assert(st.cur.push(text[i as int]) + text.subrange((i + 1) as int, text.len() as int) =~= st.cur
            + text.subrange(i as int, text.len() as int));
    } else {
        assert(st.cur + text.subrange(i as int, text.len() as int) =~= st.cur);
    }
}

/// An input without any recognised tag converts to a single unstyled
/// fragment, the input with its trailing whitespace removed; to no fragment
/// where nothing is left of it.
pub proof fn lemma_untagged_input(text: Seq<char>)
    requires
        has_no_tags(text),
    ensures
        converted(text) == Some(
            if trim_end(text).len() == 0 {
                Seq::<FragmentView>::empty()
            } else {
                seq![(trim_end(text), TextStyle { bold: false, italic: false })]
            },
        ),
{
    let conv = convention_of(text);
    lemma_scan_untagged(text, conv, 0, initial_state());
    let st = ScanState { cur: text, ..initial_state() };
    assert(Seq::<char>::empty() + text.subrange(0, text.len() as int) =~= text);
    let unstyled = TextStyle { bold: false, italic: false };
    let all = Seq::<FragmentView>::empty().push((text, unstyled));
    assert(all.drop_last() =~= Seq::<FragmentView>::empty());
    assert(drop_empty(Seq::<FragmentView>::empty()) == Seq::<FragmentView>::empty());
    assert(all.last() == (text, unstyled));
    let kept = drop_empty(all);
    if text.len() > 0 {
        assert(kept == Seq::<FragmentView>::empty().push((text, unstyled)));
        assert(kept.drop_last() =~= Seq::<FragmentView>::empty());
        assert(trim_tail(Seq::<FragmentView>::empty()) == Seq::<FragmentView>::empty());
        if trim_end(text).len() > 0 {
            assert(finish(st) =~= seq![(trim_end(text), unstyled)]);
        }
    } else {
        assert(kept == Seq::<FragmentView>::empty());
    }
}

/// Opening one style tag inside another sets both attributes; the text
/// gathered inside both is emitted in that combined style when the inner tag
/// closes; the closes then restore, in stack order, the style inside the
/// outer tag and the style before it, with the stack as it was.
pub proof fn lemma_nested_styles(
    conv: ParagraphConvention,
    st: ScanState,
    outer: TagType,
    inner: TagType,
    inner_text: Seq<char>,
    first_close: TagType,
    second_close: TagType,
)
    requires
        outer.spec_is_style(),
        inner.spec_is_style(),
        first_close.spec_is_style(),
        second_close.spec_is_style(),
    ensures
        ({
            let s1 = apply_tag(conv, Tag { ty: outer, open: true }, st)->0;
            let s2 = apply_tag(conv, Tag { ty: inner, open: true }, s1)->0;
            let s3 = apply_tag(
                conv,
                Tag { ty: first_close, open: false },
                ScanState { cur: inner_text, ..s2 },
            )->0;
            let s4 = apply_tag(conv, Tag { ty: second_close, open: false }, s3)->0;
            &&& s2.style == with_attr(with_attr(st.style, outer), inner)
            &&& s2.style.bold == (st.style.bold || outer is Bold || inner is Bold)
            &&& s2.style.italic == (st.style.italic || outer is Italic || inner is Italic)
            &&& s3.frags.last() == (inner_text, s2.style)
            &&& s3.style == s1.style
            &&& s4.style == st.style
            &&& s4.stack == st.stack
        }),
{
    let s1 = apply_tag(conv, Tag { ty: outer, open: true }, st)->0;
    let s2 = apply_tag(conv, Tag { ty: inner, open: true }, s1)->0;
    assert(s2.stack.drop_last() =~= s1.stack);
    assert(s1.stack.drop_last() =~= st.stack);
}

/// A text that ends in whitespace is never what `trim_end` returns.
pub proof fn lemma_trim_end_clean(s: Seq<char>)
    ensures
        trim_end(s).len() == 0 || !is_ws(trim_end(s).last()),
        trim_end(s).len() <= s.len(),
        trim_end(s) == s.subrange(0, trim_end(s).len() as int),
    decreases s.len(),
{
    if s.len() > 0 && is_ws(s.last()) {
        lemma_trim_end_clean(s.drop_last());
        assert(s.drop_last().subrange(0, trim_end(s).len() as int) =~= s.subrange(
            0,
            trim_end(s).len() as int,
        ));
    } else {
        assert(s.subrange(0, s.len() as int) =~= s);
    }
}

proof fn lemma_drop_empty_nonempty(frags: Seq<FragmentView>)
    ensures
        forall|k: int| 0 <= k < drop_empty(frags).len() ==> #[trigger] drop_empty(frags)[k].0.len() > 0,
    decreases frags.len(),
{
    if frags.len() > 0 {
        lemma_drop_empty_nonempty(frags.drop_last());
        let d = drop_empty(frags.drop_last());
        assert forall|k: int| 0 <= k < drop_empty(frags).len() implies #[trigger] drop_empty(
            frags,
        )[k].0.len() > 0 by {
            if k < d.len() {
                assert(d[k].0.len() > 0);
            }
        }
    }
}

proof fn lemma_trim_tail_clean(frags: Seq<FragmentView>)
    requires
        forall|k: int| 0 <= k < frags.len() ==> #[trigger] frags[k].0.len() > 0,
    ensures
        forall|k: int| 0 <= k < trim_tail(frags).len() ==> #[trigger] trim_tail(frags)[k].0.len() > 0,
        trim_tail(frags).len() > 0 ==> !is_ws(trim_tail(frags).last().0.last()),
    decreases frags.len(),
{
    if frags.len() > 0 {
        lemma_trim_end_clean(frags.last().0);
        if trim_end(frags.last().0).len() == 0 {
            lemma_trim_tail_clean(frags.drop_last());
        }
    }
}

/// Every fragment of a converted text has some text, and the last does not
/// end in whitespace.
pub proof fn lemma_fragments_clean(text: Seq<char>)
    ensures
        converted(text) matches Some(fs) ==> {
            &&& forall|k: int| 0 <= k < fs.len() ==> #[trigger] fs[k].0.len() > 0
            &&& fs.len() > 0 ==> !is_ws(fs.last().0.last())
        },
{
    if let Some(st) = scan(text, convention_of(text), 0, initial_state()) {
        lemma_drop_empty_nonempty(st.frags.push((st.cur, st.style)));
        lemma_trim_tail_clean(drop_empty(st.frags.push((st.cur, st.style))));
    }
}

/// The texts of `frags`, joined in order.
pub open spec fn joined(frags: Seq<FragmentView>) -> Seq<char>
    decreases frags.len(),
{
    if frags.len() == 0 {
        Seq::empty()
    } else {
        joined(frags.drop_last()) + frags.last().0
    }
}

proof fn lemma_joined_push(frags: Seq<FragmentView>, f: FragmentView)
    ensures
        joined(frags.push(f)) == joined(frags) + f.0,
{
    assert(frags.push(f).drop_last() =~= frags);
}

/// Converting the joined text of a converted result again, where that text
/// holds no tag and is not empty, gives that text as one unstyled fragment.
pub proof fn lemma_reconversion(text: Seq<char>)
    ensures
        converted(text) matches Some(fs) ==> (has_no_tags(joined(fs)) && joined(fs).len() > 0
            ==> converted(joined(fs)) == Some(
            seq![(joined(fs), TextStyle { bold: false, italic: false })],
        )),
{
    if let Some(fs) = converted(text) {
        if has_no_tags(joined(fs)) && joined(fs).len() > 0 {
            lemma_untagged_input(joined(fs));
            lemma_fragments_clean(text);
            if fs.len() == 0 {
                assert(joined(fs) =~= Seq::<char>::empty());
            }
            assert(joined(fs).last() == fs.last().0.last());
            assert(trim_end(joined(fs)) == joined(fs));
        }
    }
}

/// `s` without its whitespace characters.
pub open spec fn non_ws(s: Seq<char>) -> Seq<char>
    decreases s.len(),
{
    if s.len() == 0 {
        s
    } else if is_ws(s.last()) {
        non_ws(s.drop_last())
    } else {
        non_ws(s.drop_last()).push(s.last())
    }
}

proof fn lemma_non_ws_add(a: Seq<char>, b: Seq<char>)
    ensures
        non_ws(a + b) == non_ws(a) + non_ws(b),
    decreases b.len(),
{
    if b.len() == 0 {
        assert(a + b =~= a);
        assert(non_ws(a) + non_ws(b) =~= non_ws(a));
    } else {
        lemma_non_ws_add(a, b.drop_last());
        assert((a + b).drop_last() =~= a + b.drop_last());
        assert((a + b).last() == b.last());
        if !is_ws(b.last()) {
            assert(non_ws(a) + non_ws(b.drop_last()).push(b.last()) =~= (non_ws(a) + non_ws(
                b.drop_last(),
            )).push(b.last()));
        }
    }
}

proof fn lemma_non_ws_trim_end(s: Seq<char>)
    ensures
        non_ws(trim_end(s)) == non_ws(s),
    decreases s.len(),
{
    if s.len() > 0 && is_ws(s.last()) {
        lemma_non_ws_trim_end(s.drop_last());
    }
}

/// The text of `text` from position `i` on, with every recognised tag removed.
pub open spec fn strip_tags_from(text: Seq<char>, i: nat) -> Seq<char>
    decreases text.len() - i
    via strip_tags_decreases
{
    if i >= text.len() {
        Seq::empty()
    } else {
        match tag_at(text, i as int) {
            Some((_, n)) => strip_tags_from(text, i + n),
            None => seq![text[i as int]] + strip_tags_from(text, i + 1),
        }
    }
}

#[via_fn]
proof fn strip_tags_decreases(text: Seq<char>, i: nat) {
    lemma_tag_at_bounds(text, i as int);
}

/// `text` with every recognised tag removed.
pub open spec fn strip_tags(text: Seq<char>) -> Seq<char> {
    strip_tags_from(text, 0)
}

/// All the text a scan state holds: its fragments, then the pending text.
pub open spec fn state_text(st: ScanState) -> Seq<char> {
    joined(st.frags) + st.cur
}

proof fn lemma_scan_keeps_text(text: Seq<char>, conv: ParagraphConvention, i: nat, st: ScanState)
    requires
        i <= text.len(),
    ensures
        scan(text, conv, i, st) matches Some(end) ==> non_ws(state_text(end)) == non_ws(
            state_text(st),
        ) + non_ws(strip_tags_from(text, i)),
    decreases text.len() - i,
{
    lemma_tag_at_bounds(text, i as int);
    if i >= text.len() {
        assert(non_ws(state_text(st)) + non_ws(Seq::<char>::empty()) =~= non_ws(state_text(st)));
    } else {
        let c = text[i as int];
        let rest = strip_tags_from(text, i + 1);
        if st.skipping && is_ws(c) {
            lemma_scan_keeps_text(text, conv, i + 1, st);
            assert(tag_at(text, i as int) is None);
            lemma_non_ws_add(seq![c], rest);
            assert(seq![c].drop_last() =~= Seq::<char>::empty());
            assert(seq![c].last() == c);
            assert(non_ws(Seq::<char>::empty()) == Seq::<char>::empty());
            assert(non_ws(seq![c]) =~= Seq::<char>::empty());
            assert(non_ws(seq![c]) + non_ws(rest) =~= non_ws(rest));
        } else {
            match tag_at(text, i as int) {
                Some((tag, n)) => {
                    if let Some(next) = apply_tag(conv, tag, st) {
                        lemma_scan_keeps_text(text, conv, i + n, next);
                        if tag.ty.spec_is_style() {
                            lemma_joined_push(st.frags, (st.cur, st.style));
                            assert(state_text(next) =~= state_text(st));
                        } else if next.cur != st.cur {
                            let t = trim_end(st.cur);
                            lemma_non_ws_add(joined(st.frags), t.push('\n'));
                            lemma_non_ws_add(joined(st.frags), st.cur);
                            lemma_non_ws_add(t, seq!['\n']);
                            assert(t + seq!['\n'] =~= t.push('\n'));
                            assert(seq!['\n'].drop_last() =~= Seq::<char>::empty());
                            assert(seq!['\n'].last() == '\n');
                            assert(is_ws('\n'));
                            assert(non_ws(Seq::<char>::empty()) == Seq::<char>::empty());
                            assert(non_ws(seq!['\n']) =~= Seq::<char>::empty());
                            assert(non_ws(t) + non_ws(seq!['\n']) =~= non_ws(t));
                            lemma_non_ws_trim_end(st.cur);
                        } else {
                            assert(state_text(next) == state_text(st));
                        }
                    }
                },
                None => {
                    let next = ScanState { cur: st.cur.push(c), skipping: false, ..st };
                    lemma_scan_keeps_text(text, conv, i + 1, next);
                    assert(state_text(next) =~= state_text(st) + seq![c]);
                    lemma_non_ws_add(state_text(st), seq![c]);
                    lemma_non_ws_add(seq![c], rest);
                    assert(non_ws(state_text(st)) + non_ws(seq![c]) + non_ws(rest) =~= non_ws(
                        state_text(st),
                    ) + (non_ws(seq![c]) + non_ws(rest)));
                },
            }
        }
    }
}

proof fn lemma_joined_drop_empty(frags: Seq<FragmentView>)
    ensures
        joined(drop_empty(frags)) == joined(frags),
    decreases frags.len(),
{
    if frags.len() > 0 {
        lemma_joined_drop_empty(frags.drop_last());
        let d = drop_empty(frags.drop_last());
        if frags.last().0.len() > 0 {
            lemma_joined_push(d, frags.last());
        } else {
            assert(joined(frags.drop_last()) + frags.last().0 =~= joined(frags.drop_last()));
        }
    }
}

proof fn lemma_non_ws_joined_trim_tail(frags: Seq<FragmentView>)
    ensures
        non_ws(joined(trim_tail(frags))) == non_ws(joined(frags)),
    decreases frags.len(),
{
    if frags.len() > 0 {
        let rest = frags.drop_last();
        let last = frags.last().0;
        lemma_non_ws_add(joined(rest), last);
        lemma_non_ws_trim_end(last);
        if trim_end(last).len() == 0 {
            lemma_non_ws_joined_trim_tail(rest);
            assert(trim_end(last) =~= Seq::<char>::empty());
            assert(non_ws(joined(rest)) + non_ws(Seq::<char>::empty()) =~= non_ws(joined(rest)));
        } else {
            let t = trim_tail(frags);
            assert(t.drop_last() =~= rest);
            lemma_non_ws_add(joined(rest), trim_end(last));
        }
    }
}

/// Apart from whitespace, the text of a converted result is the input with
/// its recognised tags removed: no other character is dropped, invented,
/// duplicated or moved.
pub proof fn lemma_text_kept(text: Seq<char>)
    ensures
        converted(text) matches Some(fs) ==> non_ws(joined(fs)) == non_ws(strip_tags(text)),
{
    let st0 = initial_state();
    lemma_scan_keeps_text(text, convention_of(text), 0, st0);
    if let Some(st) = scan(text, convention_of(text), 0, st0) {
        assert(state_text(st0) =~= Seq::<char>::empty());
        assert(non_ws(Seq::<char>::empty()) + non_ws(strip_tags(text)) =~= non_ws(strip_tags(text)));
        let all = st.frags.push((st.cur, st.style));
        lemma_joined_push(st.frags, (st.cur, st.style));
        lemma_joined_drop_empty(all);
        lemma_non_ws_joined_trim_tail(drop_empty(all));
    }
}

/// Every recognised tag of `text` is a style tag: there is no line break
/// and no paragraph tag.
pub open spec fn only_style_tags(text: Seq<char>) -> bool {
    forall|i: int| #[trigger] tag_at(text, i) matches Some((t, _)) ==> t.ty.spec_is_style()
}

proof fn lemma_scan_exact_text(text: Seq<char>, conv: ParagraphConvention, i: nat, st: ScanState)
    requires
        i <= text.len(),
        !st.skipping,
        only_style_tags(text),
    ensures
        scan(text, conv, i, st) matches Some(end) ==> state_text(end) == state_text(st)
            + strip_tags_from(text, i),
    decreases text.len() - i,
{
    lemma_tag_at_bounds(text, i as int);
    if i >= text.len() {
        assert(state_text(st) + Seq::<char>::empty() =~= state_text(st));
    } else {
        let c = text[i as int];
        match tag_at(text, i as int) {
            Some((tag, n)) => {
                if let Some(next) = apply_tag(conv, tag, st) {
                    lemma_scan_exact_text(text, conv, i + n, next);
                    lemma_joined_push(st.frags, (st.cur, st.style));
                    assert(state_text(next) =~= state_text(st));
                }
            },
            None => {
                let next = ScanState { cur: st.cur.push(c), skipping: false, ..st };
                lemma_scan_exact_text(text, conv, i + 1, next);
                assert(state_text(next) =~= state_text(st) + seq![c]);
                assert(state_text(st) + seq![c] + strip_tags_from(text, i + 1) =~= state_text(st)
                    + (seq![c] + strip_tags_from(text, i + 1)));
            },
        }
    }
}

proof fn lemma_trim_end_add(x: Seq<char>, y: Seq<char>)
    ensures
        trim_end(x + y) == if trim_end(y).len() == 0 {
            trim_end(x)
        } else {
            x + trim_end(y)
        },
    decreases y.len(),
{
    if y.len() == 0 {
        assert(x + y =~= x);
    } else {
        assert((x + y).drop_last() =~= x + y.drop_last());
        assert((x + y).last() == y.last());
        if is_ws(y.last()) {
            lemma_trim_end_add(x, y.drop_last());
        }
    }
}

proof fn lemma_joined_trim_tail(frags: Seq<FragmentView>)
    ensures
        joined(trim_tail(frags)) == trim_end(joined(frags)),
    decreases frags.len(),
{
    if frags.len() == 0 {
        assert(trim_end(Seq::<char>::empty()) == Seq::<char>::empty());
    } else {
        let rest = frags.drop_last();
        let last = frags.last().0;
        lemma_trim_end_add(joined(rest), last);
        if trim_end(last).len() == 0 {
            lemma_joined_trim_tail(rest);
        } else {
            let t = trim_tail(frags);
            assert(t.drop_last() =~= rest);
        }
    }
}

/// Where the input has no line break and no paragraph tag, the text of the
/// result is the input with its tags removed and its trailing whitespace
/// dropped.
pub proof fn lemma_text_without_breaks(text: Seq<char>)
    requires
        only_style_tags(text),
    ensures
        converted(text) matches Some(fs) ==> joined(fs) == trim_end(strip_tags(text)),
{
    let st0 = initial_state();
    lemma_scan_exact_text(text, convention_of(text), 0, st0);
    if let Some(st) = scan(text, convention_of(text), 0, st0) {
        assert(state_text(st0) + strip_tags(text) =~= strip_tags(text));
        let all = st.frags.push((st.cur, st.style));
        lemma_joined_push(st.frags, (st.cur, st.style));
        lemma_joined_drop_empty(all);
        lemma_joined_trim_tail(drop_empty(all));
    }
}

/// The one-letter name of a style tag.
pub open spec fn style_letter(ty: TagType) -> char {
    if ty is Bold {
        'b'
    } else {
        'i'
    }
}

/// The markup of a style tag: `<b>`, `</b>`, `<i>` or `</i>`.
pub open spec fn style_tag_text(ty: TagType, open: bool) -> Seq<char> {
    if open {
        seq!['<', style_letter(ty), '>']
    } else {
        seq!['<', '/', style_letter(ty), '>']
    }
}

/// `s` holds no `<`.
pub open spec fn no_open_marker(s: Seq<char>) -> bool {
    forall|k: int| 0 <= k < s.len() ==> #[trigger] s[k] != '<'
}

proof fn lemma_style_tag_at(text: Seq<char>, i: int, ty: TagType, open: bool)
    requires
        ty.spec_is_style(),
        0 <= i,
        i + style_tag_text(ty, open).len() <= text.len(),
        text.subrange(i, i + style_tag_text(ty, open).len()) == style_tag_text(ty, open),
    ensures
        tag_at(text, i) == Some((Tag { ty, open }, style_tag_text(ty, open).len())),
{
    let t = style_tag_text(ty, open);
    let s = text.subrange(i, text.len() as int);
    assert forall|k: int| 0 <= k < t.len() implies s[k] == #[trigger] t[k] by {
        assert(text.subrange(i, i + t.len())[k] == text[i + k]);
    }
    assert(text[i] == s[0]);
    if open {
        assert(find_from(s, '>', 2) == Some(2nat));
        assert(find_from(s, '>', 1) == Some(2nat));
        assert(s.subrange(1, 2) =~= seq![style_letter(ty)]);
    } else {
        assert(find_from(s, '>', 3) == Some(3nat));
        assert(find_from(s, '>', 2) == Some(3nat));
        assert(find_from(s, '>', 1) == Some(3nat));
        assert(s.subrange(2, 3) =~= seq![style_letter(ty)]);
    }
    assert(seq!['b'][0] == 'b' && seq!['i'][0] == 'i' && seq!['p'][0] == 'p');
    assert(seq!['b', 'r'].len() == 2);
    assert(tag_prefix(s) == Some((Tag { ty, open }, t.len())));
}

proof fn lemma_scan_plain_run(
    text: Seq<char>,
    conv: ParagraphConvention,
    i: nat,
    j: nat,
    st: ScanState,
)
    requires
        i <= j <= text.len(),
        !st.skipping,
        no_open_marker(text.subrange(i as int, j as int)),
    ensures
        scan(text, conv, i, st) == scan(
            text,
            conv,
            j,
            ScanState { cur: st.cur + text.subrange(i as int, j as int), ..st },
        ),
    decreases j - i,
{
    if i < j {
        assert(text.subrange(i as int, j as int)[0] == text[i as int]);
        let next = ScanState { cur: st.cur.push(text[i as int]), skipping: false, ..st };
        assert forall|k: int| 0 <= k < j - (i + 1) implies #[trigger] text.subrange(
            (i + 1) as int,
            j as int,
        )[k] != '<' by {
            assert(text.subrange((i + 1) as int, j as int)[k] == text.subrange(i as int, j as int)[k
                + 1]);
        }
        lemma_scan_plain_run(text, conv, i + 1, j, next);
        assert(st.cur.push(text[i as int]) + text.subrange((i + 1) as int, j as int) =~= st.cur
            + text.subrange(i as int, j as int));
    } else {
        assert(st.cur + text.subrange(i as int, j as int) =~= st.cur);
    }
}

proof fn lemma_scan_style_tag(
    text: Seq<char>,
    conv: ParagraphConvention,
    p: nat,
    st: ScanState,
    ty: TagType,
    open: bool,
)
    requires
        ty.spec_is_style(),
        !st.skipping,
        p + style_tag_text(ty, open).len() <= text.len(),
        text.subrange(p as int, (p + style_tag_text(ty, open).len()) as int) == style_tag_text(ty, open),
        apply_tag(conv, Tag { ty, open }, st) is Some,
    ensures
        scan(text, conv, p, st) == scan(
            text,
            conv,
            p + style_tag_text(ty, open).len(),
            apply_tag(conv, Tag { ty, open }, st)->0,
        ),
{
    lemma_style_tag_at(text, p as int, ty, open);
    assert(text[p as int] == '<') by {
        assert(text.subrange(p as int, (p + style_tag_text(ty, open).len()) as int)[0] == text[p as int]);
    }
}

/// Where `whole` starts with `prefix + piece`, it starts with `prefix`, and
/// `piece` follows it.
proof fn lemma_starts_with_piece(whole: Seq<char>, prefix: Seq<char>, piece: Seq<char>)
    requires
        prefix.len() + piece.len() <= whole.len(),
        whole.subrange(0, (prefix.len() + piece.len()) as int) == prefix + piece,
    ensures
        whole.subrange(0, prefix.len() as int) == prefix,
        whole.subrange(prefix.len() as int, (prefix.len() + piece.len()) as int) == piece,
{
    let n = (prefix.len() + piece.len()) as int;
    assert forall|k: int| 0 <= k < n implies #[trigger] whole[k] == (prefix + piece)[k] by {
        assert(whole.subrange(0, n)[k] == whole[k]);
    }
    assert(whole.subrange(0, prefix.len() as int) =~= prefix);
    assert(whole.subrange(prefix.len() as int, n) =~= piece);
}

#[verifier::rlimit(40)]
proof fn lemma_nested_scan(
    text: Seq<char>,
    a: Seq<char>,
    b: Seq<char>,
    c: Seq<char>,
    d: Seq<char>,
    e: Seq<char>,
    outer: TagType,
    inner: TagType,
    first_close: TagType,
    second_close: TagType,
    p1: nat,
    q1: nat,
    p2: nat,
    q2: nat,
    p3: nat,
    q3: nat,
    p4: nat,
    q4: nat,
)
    requires
        outer.spec_is_style(),
        inner.spec_is_style(),
        first_close.spec_is_style(),
        second_close.spec_is_style(),
        no_open_marker(a),
        no_open_marker(b),
        no_open_marker(c),
        no_open_marker(d),
        no_open_marker(e),
        p1 == a.len(),
        q1 == p1 + style_tag_text(outer, true).len(),
        p2 == q1 + b.len(),
        q2 == p2 + style_tag_text(inner, true).len(),
        p3 == q2 + c.len(),
        q3 == p3 + style_tag_text(first_close, false).len(),
        p4 == q3 + d.len(),
        q4 == p4 + style_tag_text(second_close, false).len(),
        text.len() == q4 + e.len(),
        text.subrange(0, p1 as int) == a,
        text.subrange(p1 as int, q1 as int) == style_tag_text(outer, true),
        text.subrange(q1 as int, p2 as int) == b,
        text.subrange(p2 as int, q2 as int) == style_tag_text(inner, true),
        text.subrange(q2 as int, p3 as int) == c,
        text.subrange(p3 as int, q3 as int) == style_tag_text(first_close, false),
        text.subrange(q3 as int, p4 as int) == d,
        text.subrange(p4 as int, q4 as int) == style_tag_text(second_close, false),
        text.subrange(q4 as int, text.len() as int) == e,
    ensures
        ({
            let u = TextStyle { bold: false, italic: false };
            let s1 = with_attr(u, outer);
            let s2 = with_attr(s1, inner);
            scan(text, convention_of(text), 0, initial_state()) == Some(
                ScanState {
                    cur: e,
                    style: u,
                    stack: Seq::empty(),
                    frags: seq![(a, u), (b, s1), (c, s2), (d, s1)],
                    skipping: false,
                },
            )
        }),
{
    let conv = convention_of(text);
    let u = TextStyle { bold: false, italic: false };
    let st0 = initial_state();
    let sa = ScanState { cur: a, ..st0 };
    let sb = apply_tag(conv, Tag { ty: outer, open: true }, sa)->0;
    let sb2 = ScanState { cur: b, ..sb };
    let sc = apply_tag(conv, Tag { ty: inner, open: true }, sb2)->0;
    let sc2 = ScanState { cur: c, ..sc };
    let sd = apply_tag(conv, Tag { ty: first_close, open: false }, sc2)->0;
    let sd2 = ScanState { cur: d, ..sd };
    let se = apply_tag(conv, Tag { ty: second_close, open: false }, sd2)->0;
    let se2 = ScanState { cur: e, ..se };
    assert(scan(text, conv, 0, st0) == scan(text, conv, p1, sa)) by {
        lemma_scan_plain_run(text, conv, 0, p1, st0);
        assert(st0.cur + a =~= a);
    }
    assert(scan(text, conv, p1, sa) == scan(text, conv, q1, sb)) by {
        lemma_scan_style_tag(text, conv, p1, sa, outer, true);
    }
    assert(scan(text, conv, q1, sb) == scan(text, conv, p2, sb2)) by {
        lemma_scan_plain_run(text, conv, q1, p2, sb);
        assert(sb.cur + b =~= b);
    }
    assert(scan(text, conv, p2, sb2) == scan(text, conv, q2, sc)) by {
        lemma_scan_style_tag(text, conv, p2, sb2, inner, true);
    }
    assert(scan(text, conv, q2, sc) == scan(text, conv, p3, sc2)) by {
        lemma_scan_plain_run(text, conv, q2, p3, sc);
        assert(sc.cur + c =~= c);
    }
    assert(sc2.stack.drop_last() =~= seq![u]);
    assert(scan(text, conv, p3, sc2) == scan(text, conv, q3, sd)) by {
        lemma_scan_style_tag(text, conv, p3, sc2, first_close, false);
    }
    assert(scan(text, conv, q3, sd) == scan(text, conv, p4, sd2)) by {
        lemma_scan_plain_run(text, conv, q3, p4, sd);
        assert(sd.cur + d =~= d);
    }
    assert(sd2.stack.drop_last() =~= Seq::<TextStyle>::empty());
    assert(scan(text, conv, p4, sd2) == scan(text, conv, q4, se)) by {
        lemma_scan_style_tag(text, conv, p4, sd2, second_close, false);
    }
    assert(scan(text, conv, q4, se) == scan(text, conv, text.len(), se2)) by {
        lemma_scan_plain_run(text, conv, q4, text.len(), se);
        assert(se.cur + e =~= e);
    }
    assert(se2.frags =~= seq![(a, u), (b, with_attr(u, outer)), (c, with_attr(with_attr(u, outer), inner)), (d, with_attr(u, outer))]);
    assert(se2.stack =~= Seq::<TextStyle>::empty());
}

/// Text `a` to `e` around one style tag nested inside another, the closes in
/// either order of names: the scan emits `a` unstyled, `b` in the outer
/// style, `c` with both attributes, `d` back in the outer style, and ends on
/// `e` unstyled with no tag open.
pub proof fn lemma_nested_input(
    a: Seq<char>,
    b: Seq<char>,
    c: Seq<char>,
    d: Seq<char>,
    e: Seq<char>,
    outer: TagType,
    inner: TagType,
    first_close: TagType,
    second_close: TagType,
)
    requires
        outer.spec_is_style(),
        inner.spec_is_style(),
        first_close.spec_is_style(),
        second_close.spec_is_style(),
        no_open_marker(a),
        no_open_marker(b),
        no_open_marker(c),
        no_open_marker(d),
        no_open_marker(e),
    ensures
        ({
            let text = a + style_tag_text(outer, true) + b + style_tag_text(inner, true) + c
                + style_tag_text(first_close, false) + d + style_tag_text(second_close, false) + e;
            let u = TextStyle { bold: false, italic: false };
            let s1 = with_attr(u, outer);
            let s2 = with_attr(s1, inner);
            &&& s2.bold == (outer is Bold || inner is Bold)
            &&& s2.italic == (outer is Italic || inner is Italic)
            &&& scan(text, convention_of(text), 0, initial_state()) == Some(
                ScanState {
                    cur: e,
                    style: u,
                    stack: Seq::empty(),
                    frags: seq![(a, u), (b, s1), (c, s2), (d, s1)],
                    skipping: false,
                },
            )
        }),
{
    let t1 = style_tag_text(outer, true);
    let t2 = style_tag_text(inner, true);
    let t3 = style_tag_text(first_close, false);
    let t4 = style_tag_text(second_close, false);
    let x0 = a;
    let x1 = x0 + t1;
    let x2 = x1 + b;
    let x3 = x2 + t2;
    let x4 = x3 + c;
    let x5 = x4 + t3;
    let x6 = x5 + d;
    let x7 = x6 + t4;
    let x8 = x7 + e;
    let text = x8;
    assert(text == a + t1 + b + t2 + c + t3 + d + t4 + e);
    assert(text.subrange(0, x8.len() as int) =~= x8);
    lemma_starts_with_piece(text, x7, e);
    lemma_starts_with_piece(text, x6, t4);
    lemma_starts_with_piece(text, x5, d);
    lemma_starts_with_piece(text, x4, t3);
    lemma_starts_with_piece(text, x3, c);
    lemma_starts_with_piece(text, x2, t2);
    lemma_starts_with_piece(text, x1, b);
    lemma_starts_with_piece(text, x0, t1);
    assert(text.subrange(0, x0.len() as int) == a);
    lemma_nested_scan(text, a, b, c, d, e, outer, inner, first_close, second_close,
        x0.len(), x1.len(), x2.len(), x3.len(), x4.len(), x5.len(), x6.len(), x7.len());
}

} // verus!

//! The markdown scanner: from the document text to structural events.
//!
//! The scanner is line oriented.  Every line is classified as a fenced-code
//! boundary or content, a heading, an HTML comment, a block quote line, a
//! list item, a blank line or a paragraph line, against the state left by the
//! lines before it; each class contributes its events.  Inline text is split
//! further: backtick code spans become [`Event::Code`] events and `**`
//! emphasis openers reset the text block, so that a bold `OPTIONS` marker is
//! seen by the compiler exactly as a plain one.

use vstd::prelude::*;
use crate::events::{Event, EventModel};
use crate::text::{
    find_non_ws, is_ws, is_ws_char, matches_at, skip_ws_idx, spec_trim, sub_chars, trim_chars,
};

verus! {

/// Length of the run of copies of `c` in `s` starting at `i`.
pub open spec fn run_len(s: Seq<char>, i: int, c: char) -> int
    decreases s.len() - i,
{
    if i < 0 || i >= s.len() {
        0
    } else if s[i] == c {
        1 + run_len(s, i + 1, c)
    } else {
        0
    }
}

/// Counts the run of copies of `c` in `v` starting at `from`.
pub fn run_len_x(v: &Vec<char>, from: usize, c: char) -> (r: usize)
    requires
        from <= v@.len(),
    ensures
        r == run_len(v@, from as int, c),
        from + r <= v@.len(),
{
    let mut i: usize = from;
    while i < v.len() && v[i] == c
        invariant
            from <= i <= v@.len(),
            run_len(v@, from as int, c) == i - from + run_len(v@, i as int, c),
        decreases v@.len() - i,
    {
        i = i + 1;
    }
    i - from
}

/// A line consisting only of whitespace.
pub open spec fn is_blank_line(s: Seq<char>) -> bool {
    skip_ws_idx(s, 0) == s.len()
}

/// Decides whether the line is blank.
pub fn blank_line(v: &Vec<char>) -> (r: bool)
    ensures
        r == is_blank_line(v@),
{
    find_non_ws(v, 0) == v.len()
}

/// A fence-opening line: the fence character, the run length and the trimmed
/// info string.
pub open spec fn fence_open_of(s: Seq<char>) -> Option<(char, int, Seq<char>)> {
    if s.len() > 0 && (s[0] == '`' || s[0] == '~') {
        let n = run_len(s, 0, s[0]);
        if n >= 3 {
            Some((s[0], n, spec_trim(s.subrange(n, s.len() as int))))
        } else {
            None
        }
    } else {
        None
    }
}

/// Parses a fence-opening line.
pub fn fence_open(v: &Vec<char>) -> (r: Option<(char, usize, Vec<char>)>)
    ensures
        match r {
            Some((c, n, info)) => fence_open_of(v@) == Some((c, n as int, info@)),
            None => fence_open_of(v@) is None,
        },
{
    if v.len() > 0 && (v[0] == '`' || v[0] == '~') {
        let c = v[0];
        let n = run_len_x(v, 0, c);
        if n >= 3 {
            let rest = sub_chars(v, n, v.len());
            let info = trim_chars(&rest);
            Some((c, n, info))
        } else {
            None
        }
    } else {
        None
    }
}

/// A line that closes the fence opened with `c` repeated `n` times: at least
/// as long a run of the same character, followed only by whitespace.
pub open spec fn is_fence_close(s: Seq<char>, c: char, n: int) -> bool {
    s.len() > 0 && s[0] == c && run_len(s, 0, c) >= n && skip_ws_idx(s, run_len(s, 0, c))
        == s.len()
}

/// Decides whether the line closes the open fence.
pub fn fence_close(v: &Vec<char>, c: char, n: usize) -> (r: bool)
    ensures
        r == is_fence_close(v@, c, n as int),
{
    if v.len() > 0 && v[0] == c {
        let m = run_len_x(v, 0, c);
        m >= n && find_non_ws(v, m) == v.len()
    } else {
        false
    }
}

/// A heading line: the level (1 to 6) and the trimmed heading text.
pub open spec fn heading_of(s: Seq<char>) -> Option<(int, Seq<char>)> {
    if s.len() > 0 && s[0] == '#' {
        let n = run_len(s, 0, '#');
        if 1 <= n <= 6 && (n == s.len() || is_ws_char(s[n])) {
            Some((n, spec_trim(s.subrange(n, s.len() as int))))
        } else {
            None
        }
    } else {
        None
    }
}

/// Parses a heading line.
pub fn heading_line(v: &Vec<char>) -> (r: Option<(u8, Vec<char>)>)
    ensures
        match r {
            Some((lvl, content)) => heading_of(v@) == Some((lvl as int, content@)) && 1 <= lvl
                <= 6,
            None => heading_of(v@) is None,
        },
{
    if v.len() > 0 && v[0] == '#' {
        let n = run_len_x(v, 0, '#');
        if 1 <= n && n <= 6 && (n == v.len() || is_ws(v[n])) {
            let rest = sub_chars(v, n, v.len());
            let content = trim_chars(&rest);
            Some((n as u8, content))
        } else {
            None
        }
    } else {
        None
    }
}

/// A list item line: its indent and the trimmed item text.
pub open spec fn item_of(s: Seq<char>) -> Option<(int, Seq<char>)> {
    let ind = run_len(s, 0, ' ');
    if ind < s.len() && (s[ind] == '-' || s[ind] == '*' || s[ind] == '+') && (ind + 1 == s.len()
        || is_ws_char(s[ind + 1])) {
        Some((ind, spec_trim(s.subrange(ind + 1, s.len() as int))))
    } else {
        None
    }
}

/// Parses a list item line.
pub fn item_line(v: &Vec<char>) -> (r: Option<(usize, Vec<char>)>)
    ensures
        match r {
            Some((ind, content)) => item_of(v@) == Some((ind as int, content@)),
            None => item_of(v@) is None,
        },
{
    let ind = run_len_x(v, 0, ' ');
    if ind < v.len() && (v[ind] == '-' || v[ind] == '*' || v[ind] == '+') && (ind + 1 == v.len()
        || is_ws(v[ind + 1])) {
        let rest = sub_chars(v, ind + 1, v.len());
        let content = trim_chars(&rest);
        Some((ind, content))
    } else {
        None
    }
}

/// A block quote line: the trimmed text after the marker.
pub open spec fn quote_of(s: Seq<char>) -> Option<Seq<char>> {
    if s.len() > 0 && s[0] == '>' {
        Some(spec_trim(s.subrange(1, s.len() as int)))
    } else {
        None
    }
}

/// Parses a block quote line.
pub fn quote_line(v: &Vec<char>) -> (r: Option<Vec<char>>)
    ensures
        match r {
            Some(content) => quote_of(v@) == Some(content@),
            None => quote_of(v@) is None,
        },
{
    if v.len() > 0 && v[0] == '>' {
        let rest = sub_chars(v, 1, v.len());
        Some(trim_chars(&rest))
    } else {
        None
    }
}

/// An HTML line: after trimming it starts with `<!--`.
pub open spec fn is_html_line(s: Seq<char>) -> bool {
    matches_at(spec_trim(s), 0, seq!['<', '!', '-', '-'])
}

/// Decides whether the trimmed line starts an HTML comment.
pub fn html_line(v: &Vec<char>) -> (r: bool)
    ensures
        r == is_html_line(v@),
{
    let t = trim_chars(v);
    let mut p: Vec<char> = Vec::new();
    p.push('<');
    p.push('!');
    p.push('-');
    p.push('-');
    proof {
        assert(p@ =~= seq!['<', '!', '-', '-']);
    }
    crate::text::has_at(&t, 0, &p)
}

/// Appends one event, for reasoning over the deep view of the output.
pub fn push_ev(out: &mut Vec<Event>, e: Event)
    ensures
        final(out).deep_view() == old(out).deep_view().push(e@),
{
    let ghost m = e@;
    out.push(e);
    proof {
        assert(out.deep_view() =~= old(out).deep_view().push(m));
    }
}

/// First position at or after `i` holding a backtick or a `**` opener.
pub open spec fn find_special_idx(s: Seq<char>, i: int) -> Option<int>
    decreases s.len() - i,
{
    if i < 0 || i >= s.len() {
        None
    } else if s[i] == '`' {
        Some(i)
    } else if s[i] == '*' && i + 1 < s.len() && s[i + 1] == '*' {
        Some(i)
    } else {
        find_special_idx(s, i + 1)
    }
}

pub proof fn lemma_find_special_idx(s: Seq<char>, i: int)
    requires
        0 <= i <= s.len(),
    ensures
        match find_special_idx(s, i) {
            Some(k) => i <= k < s.len() && (s[k] == '`' || (s[k] == '*' && k + 1 < s.len() && s[k
                + 1] == '*')),
            None => true,
        },
    decreases s.len() - i,
{
    if i < s.len() && !(s[i] == '`') && !(s[i] == '*' && i + 1 < s.len() && s[i + 1] == '*') {
        lemma_find_special_idx(s, i + 1);
    }
}

/// Finds the first backtick or `**` opener at or after `from`.
pub fn find_special(v: &Vec<char>, from: usize) -> (r: Option<usize>)
    requires
        from <= v@.len(),
    ensures
        match r {
            Some(k) => find_special_idx(v@, from as int) == Some(k as int) && from <= k
                < v@.len(),
            None => find_special_idx(v@, from as int) is None,
        },
{
    let mut i: usize = from;
    while i < v.len() && !(v[i] == '`') && !(v[i] == '*' && i + 1 < v.len() && v[i + 1] == '*')
        invariant
            from <= i <= v@.len(),
            find_special_idx(v@, from as int) == find_special_idx(v@, i as int),
        decreases v@.len() - i,
    {
        i = i + 1;
    }
    if i < v.len() {
        Some(i)
    } else {
        None
    }
}

/// First position at or after `i` holding the character `c`.
pub open spec fn find_char_idx(s: Seq<char>, c: char, i: int) -> Option<int>
    decreases s.len() - i,
{
    if i < 0 || i >= s.len() {
        None
    } else if s[i] == c {
        Some(i)
    } else {
        find_char_idx(s, c, i + 1)
    }
}

pub proof fn lemma_find_char_idx(s: Seq<char>, c: char, i: int)
    requires
        0 <= i <= s.len(),
    ensures
        match find_char_idx(s, c, i) {
            Some(k) => i <= k < s.len() && s[k] == c,
            None => true,
        },
    decreases s.len() - i,
{
    if i < s.len() && s[i] != c {
        lemma_find_char_idx(s, c, i + 1);
    }
}

/// Finds the first `c` at or after `from`.
pub fn find_char(v: &Vec<char>, c: char, from: usize) -> (r: Option<usize>)
    requires
        from <= v@.len(),
    ensures
        match r {
            Some(k) => find_char_idx(v@, c, from as int) == Some(k as int) && from <= k
                < v@.len(),
            None => find_char_idx(v@, c, from as int) is None,
        },
{
    let mut i: usize = from;
    while i < v.len() && v[i] != c
        invariant
            from <= i <= v@.len(),
            find_char_idx(v@, c, from as int) == find_char_idx(v@, c, i as int),
        decreases v@.len() - i,
    {
        i = i + 1;
    }
    if i < v.len() {
        Some(i)
    } else {
        None
    }
}

/// A text event for a nonempty run, nothing for an empty one.
pub open spec fn text_evs(s: Seq<char>) -> Seq<EventModel> {
    if s.len() == 0 {
        Seq::empty()
    } else {
        seq![EventModel::Text { text: s }]
    }
}

/// The inline events of a text line from position `i` on: backtick spans
/// become code events; a `**` opener starts a new text block and its closer
/// is dropped.
pub open spec fn inline_from(s: Seq<char>, i: int, strong_open: bool) -> Seq<EventModel>
    decreases s.len() - i,
    when 0 <= i <= s.len()
    via inline_from_dec
{
    match find_special_idx(s, i) {
        None => text_evs(s.subrange(i, s.len() as int)),
        Some(sp) => if s[sp] == '`' {
            match find_char_idx(s, '`', sp + 1) {
                Some(j) => text_evs(s.subrange(i, sp)) + seq![
                    EventModel::Code { text: s.subrange(sp + 1, j) },
                ] + inline_from(s, j + 1, strong_open),
                None => text_evs(s.subrange(i, sp + 1)) + inline_from(s, sp + 1, strong_open),
            }
        } else if !strong_open {
            text_evs(s.subrange(i, sp)) + seq![EventModel::Boundary] + inline_from(
                s,
                sp + 2,
                true,
            )
        } else {
            text_evs(s.subrange(i, sp)) + inline_from(s, sp + 2, false)
        },
    }
}

#[via_fn]
proof fn inline_from_dec(s: Seq<char>, i: int, strong_open: bool) {
    lemma_find_special_idx(s, i);
    match find_special_idx(s, i) {
        Some(sp) => {
            if s[sp] == '`' {
                lemma_find_char_idx(s, '`', sp + 1);
            }
        },
        None => {},
    }
}

/// The events of one line of inline text: a fresh text block, then its runs.
pub open spec fn inline_all(s: Seq<char>) -> Seq<EventModel> {
    seq![EventModel::Boundary] + inline_from(s, 0, false)
}

/// Appends the inline events of a content line.
pub fn scan_inline(line: &Vec<char>, out: &mut Vec<Event>)
    ensures
        final(out).deep_view() == old(out).deep_view() + inline_all(line@),
{
    push_ev(out, Event::Boundary);
    let ghost base = out.deep_view();
    let mut i: usize = 0;
    let mut strong_open = false;
    let n = line.len();
    proof {
        assert(line@.len() == n as int);
        assert(base =~= old(out).deep_view().push(EventModel::Boundary));
    }
    loop
        invariant_except_break
            base + inline_from(line@, 0, false) == out.deep_view() + inline_from(
                line@,
                i as int,
                strong_open,
            ),
        invariant
            0 <= i <= line@.len(),
            line@.len() <= usize::MAX,
        ensures
            out.deep_view() == base + inline_from(line@, 0, false),
        decreases line@.len() - i,
    {
        proof {
            lemma_find_special_idx(line@, i as int);
        }
        match find_special(line, i) {
            None => {
                if i < line.len() {
                    let t = sub_chars(line, i, line.len());
                    push_ev(out, Event::Text { text: t });
                }
                proof {
                    if i < line@.len() {
                        assert(out.deep_view() =~= base + inline_from(line@, 0, false));
                    } else {
                        assert(line@.subrange(i as int, line@.len() as int)
                            =~= Seq::<char>::empty());
                        assert(out.deep_view() =~= base + inline_from(line@, 0, false));
                    }
                }
                break ;
            },
            Some(sp) => {
                let ghost before = out.deep_view();
                if line[sp] == '`' {
                    proof {
                        lemma_find_char_idx(line@, '`', sp + 1 as int);
                    }
                    match find_char(line, '`', sp + 1) {
                        Some(j) => {
                            if i < sp {
                                let t = sub_chars(line, i, sp);
                                push_ev(out, Event::Text { text: t });
                            }
                            let c = sub_chars(line, sp + 1, j);
                            push_ev(out, Event::Code { text: c });
                            proof {
                                if i < sp {
                                    assert(out.deep_view() =~= before + text_evs(
                                        line@.subrange(i as int, sp as int),
                                    ) + seq![
                                        EventModel::Code {
                                            text: line@.subrange(sp + 1 as int, j as int),
                                        },
                                    ]);
                                } else {
                                    assert(line@.subrange(i as int, sp as int)
                                        =~= Seq::<char>::empty());
                                    assert(out.deep_view() =~= before + text_evs(
                                        line@.subrange(i as int, sp as int),
                                    ) + seq![
                                        EventModel::Code {
                                            text: line@.subrange(sp + 1 as int, j as int),
                                        },
                                    ]);
                                }
                            }
                            i = j + 1;
                        },
                        None => {
                            let t = sub_chars(line, i, sp + 1);
                            push_ev(out, Event::Text { text: t });
                            proof {
                                assert(out.deep_view() =~= before + text_evs(
                                    line@.subrange(i as int, sp + 1 as int),
                                ));
                            }
                            i = sp + 1;
                        },
                    }
                } else {
                    if i < sp {
                        let t = sub_chars(line, i, sp);
                        push_ev(out, Event::Text { text: t });
                    }
                    if !strong_open {
                        push_ev(out, Event::Boundary);
                        proof {
                            if i < sp {
                                assert(out.deep_view() =~= before + text_evs(
                                    line@.subrange(i as int, sp as int),
                                ) + seq![EventModel::Boundary]);
                            } else {
                                assert(line@.subrange(i as int, sp as int)
                                    =~= Seq::<char>::empty());
                                assert(out.deep_view() =~= before + text_evs(
                                    line@.subrange(i as int, sp as int),
                                ) + seq![EventModel::Boundary]);
                            }
                        }
                        strong_open = true;
                    } else {
                        proof {
                            if i < sp {
                                assert(out.deep_view() =~= before + text_evs(
                                    line@.subrange(i as int, sp as int),
                                ));
                            } else {
                                assert(line@.subrange(i as int, sp as int)
                                    =~= Seq::<char>::empty());
                                assert(out.deep_view() =~= before + text_evs(
                                    line@.subrange(i as int, sp as int),
                                ));
                            }
                        }
                        strong_open = false;
                    }
                    i = sp + 2;
                }
            },
        }
    }
    proof {
        assert(out.deep_view() =~= old(out).deep_view() + inline_all(line@));
    }
}

/// Model of the scanner state between lines.
#[verifier::ext_equal]
pub enum ModeModel {
    /// Between blocks.
    Top,
    /// Inside a block quote, collecting paragraph lines.
    Quote,
    /// Inside nested lists; the stack holds the indent of each open list.
    Lists { stack: Seq<usize> },
    /// Inside a fenced code block.
    Code { fence: char, open_len: int, info: Seq<char> },
}

/// The scanner state between lines.
#[derive(Debug)]
pub enum Mode {
    /// Between blocks.
    Top,
    /// Inside a block quote, collecting paragraph lines.
    Quote,
    /// Inside nested lists; the stack holds the indent of each open list.
    Lists { stack: Vec<usize> },
    /// Inside a fenced code block opened with `open_len` copies of `fence`.
    Code { fence: char, open_len: usize, info: Vec<char> },
}

impl View for Mode {
    type V = ModeModel;

    open spec fn view(&self) -> ModeModel {
        match self {
            Mode::Top => ModeModel::Top,
            Mode::Quote => ModeModel::Quote,
            Mode::Lists { stack } => ModeModel::Lists { stack: stack@ },
            Mode::Code { fence, open_len, info } => ModeModel::Code {
                fence: *fence,
                open_len: *open_len as int,
                info: info@,
            },
        }
    }
}

/// The events that close `k` nested lists, innermost first.
pub open spec fn list_close_evs(k: int) -> Seq<EventModel>
    decreases k,
{
    if k <= 0 {
        Seq::empty()
    } else {
        seq![EventModel::ItemEnd, EventModel::ListEnd] + list_close_evs(k - 1)
    }
}

/// The events that close whatever the mode left open.
pub open spec fn close_evs(m: ModeModel) -> Seq<EventModel> {
    match m {
        ModeModel::Top => Seq::empty(),
        ModeModel::Quote => seq![EventModel::QuoteEnd],
        ModeModel::Lists { stack } => list_close_evs(stack.len() as int),
        ModeModel::Code { fence, open_len, info } => seq![EventModel::FenceEnd { info: info }],
    }
}

/// Appends the events that close whatever the mode left open.
pub fn close_mode(m: Mode, out: &mut Vec<Event>)
    ensures
        final(out).deep_view() == old(out).deep_view() + close_evs(m@),
{
    match m {
        Mode::Top => {
            proof {
                assert(out.deep_view() =~= old(out).deep_view() + close_evs(
                    ModeModel::Top,
                ));
            }
        },
        Mode::Quote => {
            push_ev(out, Event::QuoteEnd);
            proof {
                assert(out.deep_view() =~= old(out).deep_view() + close_evs(ModeModel::Quote));
            }
        },
        Mode::Lists { stack } => {
            let ghost base = out.deep_view();
            let mut k: usize = stack.len();
            while k > 0
                invariant
                    0 <= k <= stack@.len(),
                    out.deep_view() + list_close_evs(k as int) == base + list_close_evs(
                        stack@.len() as int,
                    ),
                decreases k,
            {
                push_ev(out, Event::ItemEnd);
                push_ev(out, Event::ListEnd);
                proof {
                    assert(out.deep_view() + list_close_evs(k - 1 as int) =~= base
                        + list_close_evs(stack@.len() as int));
                }
                k = k - 1;
            }
            proof {
                assert(out.deep_view() =~= out.deep_view() + list_close_evs(0));
                assert(out.deep_view() =~= base + close_evs(ModeModel::Lists { stack: stack@ }));
            }
        },
        Mode::Code { fence, open_len, info } => {
            let ghost im = info@;
            push_ev(out, Event::FenceEnd { info });
            proof {
                assert(out.deep_view() =~= old(out).deep_view() + close_evs(
                    ModeModel::Code { fence: fence, open_len: open_len as int, info: im },
                ));
            }
        },
    }
}

/// Opening and closing events when a new item at indent `ind` meets the open
/// lists: deeper lists are closed, an equal indent starts a sibling item and
/// a greater one opens a nested list.
pub open spec fn list_adjust(stack: Seq<usize>, ind: usize) -> (Seq<EventModel>, Seq<usize>)
    decreases stack.len(),
{
    if stack.len() > 0 && (ind as int) < (stack.last() as int) {
        let pr = list_adjust(stack.drop_last(), ind);
        (seq![EventModel::ItemEnd, EventModel::ListEnd] + pr.0, pr.1)
    } else if stack.len() > 0 && ind == stack.last() {
        (seq![EventModel::ItemEnd, EventModel::ItemStart], stack)
    } else {
        (seq![EventModel::ListStart, EventModel::ItemStart], stack.push(ind))
    }
}

/// Adjusts the list stack for an item at indent `ind`, appending the events.
pub fn adjust_lists(stack: Vec<usize>, ind: usize, out: &mut Vec<Event>) -> (r: Vec<usize>)
    ensures
        final(out).deep_view() == old(out).deep_view() + list_adjust(stack@, ind).0,
        r@ == list_adjust(stack@, ind).1,
{
    let ghost base = out.deep_view();
    let mut st = stack;
    while st.len() > 0 && ind < st[st.len() - 1]
        invariant
            out.deep_view() + list_adjust(st@, ind).0 == base + list_adjust(stack@, ind).0,
            list_adjust(st@, ind).1 == list_adjust(stack@, ind).1,
        decreases st@.len(),
    {
        proof {
            assert(st@.drop_last() =~= st@.subrange(0, st@.len() - 1));
        }
        push_ev(out, Event::ItemEnd);
        push_ev(out, Event::ListEnd);
        let _ = st.pop();
        proof {
            assert(out.deep_view() + list_adjust(st@, ind).0 =~= base + list_adjust(
                stack@,
                ind,
            ).0);
        }
    }
    if st.len() > 0 && ind == st[st.len() - 1] {
        push_ev(out, Event::ItemEnd);
        push_ev(out, Event::ItemStart);
        proof {
            assert(out.deep_view() =~= base + list_adjust(stack@, ind).0);
        }
        st
    } else {
        push_ev(out, Event::ListStart);
        push_ev(out, Event::ItemStart);
        let mut st2 = st;
        st2.push(ind);
        proof {
            assert(out.deep_view() =~= base + list_adjust(stack@, ind).0);
        }
        st2
    }
}

/// The events of one line and the state it leaves, given the state `m` the
/// previous lines left.  Inside a fence every line is raw text until the
/// closing fence; outside, the line's class decides.
pub open spec fn scan_line_spec(line: Seq<char>, off: int, m: ModeModel) -> (
    Seq<EventModel>,
    ModeModel,
) {
    match m {
        ModeModel::Code { fence, open_len, info } => {
            if is_fence_close(line, fence, open_len) {
                (seq![EventModel::FenceEnd { info: info }], ModeModel::Top)
            } else {
                (seq![EventModel::Text { text: line.push('\n') }], m)
            }
        },
        _ => {
            if is_blank_line(line) {
                (close_evs(m), ModeModel::Top)
            } else if fence_open_of(line) is Some {
                let (c, n, info) = fence_open_of(line)->Some_0;
                (
                    close_evs(m) + seq![EventModel::FenceStart { info: info, pos: off }],
                    ModeModel::Code { fence: c, open_len: n, info: info },
                )
            } else if heading_of(line) is Some {
                let (lvl, content) = heading_of(line)->Some_0;
                (
                    close_evs(m) + seq![EventModel::HeadingStart { level: lvl, pos: off }]
                        + inline_all(content) + seq![EventModel::HeadingEnd { level: lvl }],
                    ModeModel::Top,
                )
            } else if is_html_line(line) {
                (
                    close_evs(m) + seq![EventModel::Html { text: spec_trim(line) }],
                    ModeModel::Top,
                )
            } else if quote_of(line) is Some {
                let content = quote_of(line)->Some_0;
                if m is Quote {
                    (inline_all(content), ModeModel::Quote)
                } else {
                    (
                        close_evs(m) + seq![EventModel::QuoteStart] + inline_all(content),
                        ModeModel::Quote,
                    )
                }
            } else if item_of(line) is Some {
                let (ind, content) = item_of(line)->Some_0;
                let indu = ind as usize;
                match m {
                    ModeModel::Lists { stack } => {
                        let pr = list_adjust(stack, indu);
                        (pr.0 + inline_all(content), ModeModel::Lists { stack: pr.1 })
                    },
                    _ => {
                        let pr = list_adjust(Seq::empty(), indu);
                        (
                            close_evs(m) + pr.0 + inline_all(content),
                            ModeModel::Lists { stack: pr.1 },
                        )
                    },
                }
            } else {
                if m is Quote {
                    (inline_all(spec_trim(line)), ModeModel::Quote)
                } else {
                    (close_evs(m) + inline_all(spec_trim(line)), ModeModel::Top)
                }
            }
        },
    }
}

/// Scans one line, appending its events and returning the new state.
pub fn scan_line(line: &Vec<char>, off: usize, m: Mode, out: &mut Vec<Event>) -> (r: Mode)
    ensures
        final(out).deep_view() == old(out).deep_view() + scan_line_spec(line@, off as int, m@).0,
        r@ == scan_line_spec(line@, off as int, m@).1,
{
    let ghost mm = m@;
    if matches!(&m, Mode::Code { .. }) {
        let (fence, open_len, info) = match m {
            Mode::Code { fence, open_len, info } => (fence, open_len, info),
            _ => (' ', 0usize, Vec::new()),
        };
        if fence_close(line, fence, open_len) {
            push_ev(out, Event::FenceEnd { info });
            proof {
                assert(out.deep_view() =~= old(out).deep_view() + scan_line_spec(
                    line@,
                    off as int,
                    mm,
                ).0);
            }
            Mode::Top
        } else {
            let mut t = sub_chars(line, 0, line.len());
            t.push('\n');
            proof {
                assert(t@ =~= line@.push('\n'));
            }
            push_ev(out, Event::Text { text: t });
            proof {
                assert(out.deep_view() =~= old(out).deep_view() + scan_line_spec(
                    line@,
                    off as int,
                    mm,
                ).0);
            }
            Mode::Code { fence, open_len, info }
        }
    } else if blank_line(line) {
        close_mode(m, out);
        Mode::Top
    } else if let Some((c, n, info)) = fence_open(line) {
        close_mode(m, out);
        let info2 = sub_chars(&info, 0, info.len());
        proof {
            assert(info2@ =~= info@);
        }
        push_ev(out, Event::FenceStart { info: info2, pos: off });
        proof {
            assert(out.deep_view() =~= old(out).deep_view() + scan_line_spec(
                line@,
                off as int,
                mm,
            ).0);
        }
        Mode::Code { fence: c, open_len: n, info }
    } else if let Some((lvl, content)) = heading_line(line) {
        close_mode(m, out);
        push_ev(out, Event::HeadingStart { level: lvl, pos: off });
        scan_inline(&content, out);
        push_ev(out, Event::HeadingEnd { level: lvl });
        proof {
            assert(out.deep_view() =~= old(out).deep_view() + scan_line_spec(
                line@,
                off as int,
                mm,
            ).0);
        }
        Mode::Top
    } else if html_line(line) {
        close_mode(m, out);
        let t = trim_chars(line);
        push_ev(out, Event::Html { text: t });
        proof {
            assert(out.deep_view() =~= old(out).deep_view() + scan_line_spec(
                line@,
                off as int,
                mm,
            ).0);
        }
        Mode::Top
    } else if let Some(content) = quote_line(line) {
        let was_quote = match &m {
            Mode::Quote => true,
            _ => false,
        };
        if was_quote {
            scan_inline(&content, out);
            proof {
                assert(out.deep_view() =~= old(out).deep_view() + scan_line_spec(
                    line@,
                    off as int,
                    mm,
                ).0);
            }
            Mode::Quote
        } else {
            close_mode(m, out);
            push_ev(out, Event::QuoteStart);
            scan_inline(&content, out);
            proof {
                assert(out.deep_view() =~= old(out).deep_view() + scan_line_spec(
                    line@,
                    off as int,
                    mm,
                ).0);
            }
            Mode::Quote
        }
    } else if let Some((ind, content)) = item_line(line) {
        let in_lists = match &m {
            Mode::Lists { stack } => true,
            _ => false,
        };
        if in_lists {
            let stack = match m {
                Mode::Lists { stack } => stack,
                _ => Vec::new(),
            };
            let st2 = adjust_lists(stack, ind, out);
            scan_inline(&content, out);
            proof {
                assert(out.deep_view() =~= old(out).deep_view() + scan_line_spec(
                    line@,
                    off as int,
                    mm,
                ).0);
            }
            Mode::Lists { stack: st2 }
        } else {
            close_mode(m, out);
            let st2 = adjust_lists(Vec::new(), ind, out);
            scan_inline(&content, out);
            proof {
                assert(out.deep_view() =~= old(out).deep_view() + scan_line_spec(
                    line@,
                    off as int,
                    mm,
                ).0);
            }
            Mode::Lists { stack: st2 }
        }
    } else {
        let was_quote = match &m {
            Mode::Quote => true,
            _ => false,
        };
        let t = trim_chars(line);
        if was_quote {
            scan_inline(&t, out);
            proof {
                assert(out.deep_view() =~= old(out).deep_view() + scan_line_spec(
                    line@,
                    off as int,
                    mm,
                ).0);
            }
            Mode::Quote
        } else {
            close_mode(m, out);
            scan_inline(&t, out);
            proof {
                assert(out.deep_view() =~= old(out).deep_view() + scan_line_spec(
                    line@,
                    off as int,
                    mm,
                ).0);
            }
            Mode::Top
        }
    }
}

/// Position of the newline that ends the line starting at `pos`, or the end
/// of the document.
pub open spec fn line_end_idx(s: Seq<char>, pos: int) -> int
    decreases s.len() - pos,
{
    if pos < 0 || pos >= s.len() {
        s.len() as int
    } else if s[pos] == '\n' {
        pos
    } else {
        line_end_idx(s, pos + 1)
    }
}

pub proof fn lemma_line_end_idx(s: Seq<char>, pos: int)
    requires
        0 <= pos <= s.len(),
    ensures
        pos <= line_end_idx(s, pos) <= s.len(),
    decreases s.len() - pos,
{
    if pos < s.len() && s[pos] != '\n' {
        lemma_line_end_idx(s, pos + 1);
    }
}

/// Finds the end of the line starting at `from`.
pub fn line_end(v: &Vec<char>, from: usize) -> (r: usize)
    requires
        from <= v@.len(),
    ensures
        r == line_end_idx(v@, from as int),
        from <= r <= v@.len(),
{
    let mut i: usize = from;
    while i < v.len() && v[i] != '\n'
        invariant
            from <= i <= v@.len(),
            line_end_idx(v@, from as int) == line_end_idx(v@, i as int),
        decreases v@.len() - i,
    {
        i = i + 1;
    }
    i
}

/// The events of the document from position `pos` on, given the state `m`:
/// each line contributes its events, and the end of the document closes
/// whatever is still open.
pub open spec fn scan_from(doc: Seq<char>, pos: int, m: ModeModel) -> Seq<EventModel>
    decreases doc.len() - pos,
    when 0 <= pos <= doc.len()
    via scan_from_dec
{
    if pos >= doc.len() {
        close_evs(m)
    } else {
        let e = line_end_idx(doc, pos);
        let pr = scan_line_spec(doc.subrange(pos, e), pos, m);
        pr.0 + scan_from(
            doc,
            if e < doc.len() {
                e + 1
            } else {
                e
            },
            pr.1,
        )
    }
}

#[via_fn]
proof fn scan_from_dec(doc: Seq<char>, pos: int, m: ModeModel) {
    if pos < doc.len() {
        lemma_line_end_idx(doc, pos);
    }
}

/// The events of a whole document.
pub open spec fn spec_scan(doc: Seq<char>) -> Seq<EventModel> {
    scan_from(doc, 0, ModeModel::Top)
}

/// Scans a document into its structural events.
pub fn scan(doc: &Vec<char>) -> (r: Vec<Event>)
    ensures
        r.deep_view() == spec_scan(doc@),
{
    let mut out: Vec<Event> = Vec::new();
    let mut mode = Mode::Top;
    let mut pos: usize = 0;
    let n = doc.len();
    proof {
        assert(out.deep_view() =~= Seq::<EventModel>::empty());
        assert(Seq::<EventModel>::empty() + spec_scan(doc@) =~= spec_scan(doc@));
    }
    while pos < n
        invariant
            0 <= pos <= doc@.len(),
            n == doc@.len(),
            out.deep_view() + scan_from(doc@, pos as int, mode@) == spec_scan(doc@),
        decreases doc@.len() - pos,
    {
        proof {
            lemma_line_end_idx(doc@, pos as int);
        }
        let e = line_end(doc, pos);
        let line = sub_chars(doc, pos, e);
        let ghost premode = mode@;
        let m2 = scan_line(&line, pos, mode, &mut out);
        mode = m2;
        proof {
            assert(out.deep_view() + scan_from(
                doc@,
                if e < doc@.len() {
                    e + 1 as int
                } else {
                    e as int
                },
                mode@,
            ) =~= spec_scan(doc@));
        }
        if e < n {
            pos = e + 1;
        } else {
            pos = e;
        }
    }
    close_mode(mode, &mut out);
    proof {
        assert(out.deep_view() =~= spec_scan(doc@));
    }
    out
}

/// Every heading event carries a level between one and six.
pub open spec fn evs_ok(evs: Seq<EventModel>) -> bool {
    forall|k: int|
        0 <= k < evs.len() ==> (match #[trigger] evs[k] {
            EventModel::HeadingStart { level, pos } => 1 <= level <= 6,
            _ => true,
        })
}

pub proof fn lemma_evs_ok_concat(a: Seq<EventModel>, b: Seq<EventModel>)
    requires
        evs_ok(a),
        evs_ok(b),
    ensures
        evs_ok(a + b),
{
    assert forall|k: int| 0 <= k < (a + b).len() implies (match #[trigger] (a + b)[k] {
        EventModel::HeadingStart { level, pos } => 1 <= level <= 6,
        _ => true,
    }) by {
        if k < a.len() {
            assert((a + b)[k] == a[k]);
        } else {
            assert((a + b)[k] == b[k - a.len()]);
        }
    }
}

proof fn lemma_list_close_ok(k: int)
    ensures
        evs_ok(list_close_evs(k)),
    decreases k,
{
    if k > 0 {
        lemma_list_close_ok(k - 1);
        lemma_evs_ok_concat(seq![EventModel::ItemEnd, EventModel::ListEnd], list_close_evs(k - 1));
    }
}

proof fn lemma_close_ok(m: ModeModel)
    ensures
        evs_ok(close_evs(m)),
{
    match m {
        ModeModel::Lists { stack } => {
            lemma_list_close_ok(stack.len() as int);
        },
        _ => {},
    }
}

proof fn lemma_inline_ok(s: Seq<char>, i: int, strong_open: bool)
    requires
        0 <= i <= s.len(),
    ensures
        evs_ok(inline_from(s, i, strong_open)),
    decreases s.len() - i,
{
    lemma_find_special_idx(s, i);
    match find_special_idx(s, i) {
        None => {},
        Some(sp) => {
            if s[sp] == '`' {
                lemma_find_char_idx(s, '`', sp + 1);
                match find_char_idx(s, '`', sp + 1) {
                    Some(j) => {
                        lemma_inline_ok(s, j + 1, strong_open);
                        lemma_evs_ok_concat(
                            text_evs(s.subrange(i, sp)),
                            seq![EventModel::Code { text: s.subrange(sp + 1, j) }],
                        );
                        lemma_evs_ok_concat(
                            text_evs(s.subrange(i, sp)) + seq![
                                EventModel::Code { text: s.subrange(sp + 1, j) },
                            ],
                            inline_from(s, j + 1, strong_open),
                        );
                    },
                    None => {
                        lemma_inline_ok(s, sp + 1, strong_open);
                        lemma_evs_ok_concat(
                            text_evs(s.subrange(i, sp + 1)),
                            inline_from(s, sp + 1, strong_open),
                        );
                    },
                }
            } else if !strong_open {
                lemma_inline_ok(s, sp + 2, true);
                lemma_evs_ok_concat(text_evs(s.subrange(i, sp)), seq![EventModel::Boundary]);
                lemma_evs_ok_concat(
                    text_evs(s.subrange(i, sp)) + seq![EventModel::Boundary],
                    inline_from(s, sp + 2, true),
                );
            } else {
                lemma_inline_ok(s, sp + 2, false);
                lemma_evs_ok_concat(
                    text_evs(s.subrange(i, sp)),
                    inline_from(s, sp + 2, false),
                );
            }
        },
    }
}

proof fn lemma_inline_all_ok(s: Seq<char>)
    ensures
        evs_ok(inline_all(s)),
{
    lemma_inline_ok(s, 0, false);
    lemma_evs_ok_concat(seq![EventModel::Boundary], inline_from(s, 0, false));
}

proof fn lemma_adjust_ok(stack: Seq<usize>, ind: usize)
    ensures
        evs_ok(list_adjust(stack, ind).0),
    decreases stack.len(),
{
    if stack.len() > 0 && (ind as int) < (stack.last() as int) {
        lemma_adjust_ok(stack.drop_last(), ind);
        lemma_evs_ok_concat(
            seq![EventModel::ItemEnd, EventModel::ListEnd],
            list_adjust(stack.drop_last(), ind).0,
        );
    }
}

proof fn lemma_scan_line_ok(line: Seq<char>, off: int, m: ModeModel)
    ensures
        evs_ok(scan_line_spec(line, off, m).0),
{
    lemma_close_ok(m);
    match m {
        ModeModel::Code { fence, open_len, info } => {},
        _ => {
            if is_blank_line(line) {
            } else if fence_open_of(line) is Some {
                lemma_evs_ok_concat(
                    close_evs(m),
                    seq![
                        EventModel::FenceStart {
                            info: fence_open_of(line)->Some_0.2,
                            pos: off,
                        },
                    ],
                );
            } else if heading_of(line) is Some {
                let (lvl, content) = heading_of(line)->Some_0;
                lemma_inline_all_ok(content);
                lemma_evs_ok_concat(
                    close_evs(m),
                    seq![EventModel::HeadingStart { level: lvl, pos: off }],
                );
                lemma_evs_ok_concat(
                    close_evs(m) + seq![EventModel::HeadingStart { level: lvl, pos: off }],
                    inline_all(content),
                );
                lemma_evs_ok_concat(
                    close_evs(m) + seq![EventModel::HeadingStart { level: lvl, pos: off }]
                        + inline_all(content),
                    seq![EventModel::HeadingEnd { level: lvl }],
                );
            } else if is_html_line(line) {
                lemma_evs_ok_concat(
                    close_evs(m),
                    seq![EventModel::Html { text: spec_trim(line) }],
                );
            } else if quote_of(line) is Some {
                let content = quote_of(line)->Some_0;
                lemma_inline_all_ok(content);
                if m is Quote {
                } else {
                    lemma_evs_ok_concat(close_evs(m), seq![EventModel::QuoteStart]);
                    lemma_evs_ok_concat(
                        close_evs(m) + seq![EventModel::QuoteStart],
                        inline_all(content),
                    );
                }
            } else if item_of(line) is Some {
                let (ind, content) = item_of(line)->Some_0;
                let indu = ind as usize;
                lemma_inline_all_ok(content);
                match m {
                    ModeModel::Lists { stack } => {
                        lemma_adjust_ok(stack, indu);
                        lemma_evs_ok_concat(list_adjust(stack, indu).0, inline_all(content));
                    },
                    _ => {
                        lemma_adjust_ok(Seq::empty(), indu);
                        lemma_evs_ok_concat(close_evs(m), list_adjust(Seq::empty(), indu).0);
                        lemma_evs_ok_concat(
                            close_evs(m) + list_adjust(Seq::empty(), indu).0,
                            inline_all(content),
                        );
                    },
                }
            } else {
                lemma_inline_all_ok(spec_trim(line));
                if m is Quote {
                } else {
                    lemma_evs_ok_concat(close_evs(m), inline_all(spec_trim(line)));
                }
            }
        },
    }
}

/// The events of a whole document carry only heading levels one to six.
pub proof fn lemma_scan_ok(doc: Seq<char>, pos: int, m: ModeModel)
    requires
        0 <= pos <= doc.len(),
    ensures
        evs_ok(scan_from(doc, pos, m)),
    decreases doc.len() - pos,
{
    if pos >= doc.len() {
        lemma_close_ok(m);
    } else {
        lemma_line_end_idx(doc, pos);
        let e = line_end_idx(doc, pos);
        let pr = scan_line_spec(doc.subrange(pos, e), pos, m);
        lemma_scan_line_ok(doc.subrange(pos, e), pos, m);
        let nxt = if e < doc.len() {
            e + 1
        } else {
            e
        };
        lemma_scan_ok(doc, nxt, pr.1);
        lemma_evs_ok_concat(pr.0, scan_from(doc, nxt, pr.1));
    }
}

} // verus!

//! The chat view of the terminal client: the list of messages with its
//! scroll state, and the word wrapping that lays a message out in lines no
//! wider than the view.
use vstd::prelude::*;
use crate::bytes::{
    byte_offset, lemma_offset_strict, lemma_take_all, lemma_take_step,
    lemma_utf8_len_subrange, utf8_len, width_of,
};
use crate::text::{
    chars_of, lemma_split_on_nonempty, skip_ws_backward, skip_ws_forward, split_on,
    split_ranges, str_equal, string_from_range, string_of, trim_end, trim_start, leading_ws, is_ws,
};

verus! {

// ---------------------------------------------------------------------------
// Lines
// ---------------------------------------------------------------------------
/// A line without the `\r` of a `\r\n` ending.
pub open spec fn strip_cr(l: Seq<char>) -> Seq<char> {
    if l.len() > 0 && l.last() == '\r' {
        l.drop_last()
    } else {
        l
    }
}

/// The lines of `s` as `str::lines` yields them: split at `\n`, a `\r`
/// before the `\n` dropped, and no empty line after a final `\n`.
pub open spec fn lines_of(s: Seq<char>) -> Seq<Seq<char>> {
    let p = split_on(s, '\n');
    let ended = p.drop_last().map_values(|l: Seq<char>| strip_cr(l));
    if s.len() == 0 || s.last() == '\n' {
        ended
    } else {
        ended.push(p.last())
    }
}

/// Whether the ranges `r` of `v` hold exactly the pieces `ls`.
pub open spec fn ranges_hold(v: Seq<char>, r: Seq<(usize, usize)>, ls: Seq<Seq<char>>) -> bool {
    &&& r.len() == ls.len()
    &&& forall|j: int|
        0 <= j < r.len() ==> #[trigger] r[j].0 <= r[j].1 <= v.len() && v.subrange(
            r[j].0 as int,
            r[j].1 as int,
        ) == ls[j]
}

/// The character ranges of the lines of `v`.
pub fn line_ranges(v: &Vec<char>) -> (r: Vec<(usize, usize)>)
    ensures
        ranges_hold(v@, r@, lines_of(v@)),
{
    let parts = split_ranges(v, '\n');
    let ghost p = split_on(v@, '\n');
    proof {
        lemma_split_on_nonempty(v@, '\n');
    }
    let n = parts.len();
    let mut r: Vec<(usize, usize)> = Vec::new();
    let mut idx: usize = 0;
    while idx + 1 < n
        invariant
            n == parts@.len() == p.len() >= 1,
            p == split_on(v@, '\n'),
            0 <= idx < n,
            r@.len() == idx,
            forall|i: int|
                0 <= i < parts@.len() ==> #[trigger] parts@[i].0 <= parts@[i].1 <= v.len()
                    && v@.subrange(parts@[i].0 as int, parts@[i].1 as int) == p[i],
            forall|i: int|
                0 <= i < idx ==> #[trigger] r@[i].0 <= r@[i].1 <= v.len() && v@.subrange(
                    r@[i].0 as int,
                    r@[i].1 as int,
                ) == strip_cr(p[i]),
        decreases n - idx,
    {
        let (lo, hi) = parts[idx];
        let ghost piece = v@.subrange(lo as int, hi as int);
        if hi > lo && v[hi - 1] == '\r' {
            assert(piece.drop_last() =~= v@.subrange(lo as int, hi - 1));
            r.push((lo, hi - 1));
        } else {
            r.push((lo, hi));
        }
        idx = idx + 1;
    }
    let ghost ended = p.drop_last().map_values(|l: Seq<char>| strip_cr(l));
    let ghost before = r@;
    let keep_last = !(v.len() == 0 || v[v.len() - 1] == '\n');
    if keep_last {
        r.push(parts[n - 1]);
    }
    proof {
        if keep_last {
            assert(lines_of(v@) == ended.push(p.last()));
        } else {
            assert(lines_of(v@) == ended);
        }
        assert forall|i: int| 0 <= i < r@.len() implies #[trigger] r@[i].0 <= r@[i].1 <= v.len()
            && v@.subrange(r@[i].0 as int, r@[i].1 as int) == lines_of(v@)[i] by {
            if i < idx {
                assert(r@[i] == before[i]);
                assert(lines_of(v@)[i] == ended[i]);
            } else {
                assert(r@[i] == parts@[n - 1]);
                assert(lines_of(v@)[i] == p[n - 1]);
            }
        }
    }
    r
}

// ---------------------------------------------------------------------------
// Greedy word wrapping
// ---------------------------------------------------------------------------
/// Whether the first `k` characters of `r` fit in `w` bytes and one more
/// would not.
pub open spec fn fits_exactly(r: Seq<char>, w: nat, k: int) -> bool {
    0 <= k < r.len() && byte_offset(r, k) <= w < byte_offset(r, k + 1)
}

/// How many leading characters of `r` fit in `w` bytes.
pub open spec fn fit_count(r: Seq<char>, w: nat) -> int {
    if utf8_len(r) <= w {
        r.len() as int
    } else {
        choose|k: int| fits_exactly(r, w, k)
    }
}

/// Index of the last ASCII space among the first `e` characters of `r`.
pub open spec fn last_space_before(r: Seq<char>, e: int) -> Option<int>
    decreases e,
{
    if e <= 0 {
        None
    } else if r[e - 1] == ' ' {
        Some(e - 1)
    } else {
        last_space_before(r, e - 1)
    }
}

/// Where a line too wide for `w` bytes is broken: just after the last space
/// that fits, or else after the last character that fits; a first character
/// wider than `w` bytes goes on a line of its own.
pub open spec fn break_at(r: Seq<char>, w: nat) -> int {
    let e = fit_count(r, w);
    match last_space_before(r, e) {
        Some(p) => p + 1,
        None => if e == 0 {
            1
        } else {
            e
        },
    }
}

/// The wrapped lines of a non-empty remainder `r`: it is emitted whole when
/// it fits; otherwise the part before the break point (without trailing
/// whitespace) is emitted and the rest (without leading whitespace) is
/// wrapped in turn. (The break point is never at the start, so the
/// remainder always shrinks.)
pub open spec fn wrap_rest(r: Seq<char>, w: nat) -> Seq<Seq<char>>
    decreases r.len(),
{
    if r.len() == 0 {
        Seq::empty()
    } else if utf8_len(r) <= w {
        seq![r]
    } else {
        let b = break_at(r, w);
        let rest = trim_start(r.skip(b));
        if 0 <= b <= r.len() && rest.len() < r.len() {
            seq![trim_end(r.take(b))] + wrap_rest(rest, w)
        } else {
            Seq::empty()
        }
    }
}

/// The wrapped lines of one line of text; an empty line stays one empty line.
pub open spec fn wrap_line(l: Seq<char>, w: nat) -> Seq<Seq<char>> {
    if l.len() == 0 {
        seq![Seq::<char>::empty()]
    } else {
        wrap_rest(l, w)
    }
}

/// The wrapped lines of a sequence of lines, in order.
pub open spec fn wrap_all(ls: Seq<Seq<char>>, w: nat) -> Seq<Seq<char>>
    decreases ls.len(),
{
    if ls.len() == 0 {
        Seq::empty()
    } else {
        wrap_all(ls.drop_last(), w) + wrap_line(ls.last(), w)
    }
}

/// What `wrap_text` produces: the lines of `s`, each wrapped to `w` bytes;
/// with `w == 0` the lines unwrapped.
pub open spec fn wrap_spec(s: Seq<char>, w: nat) -> Seq<Seq<char>> {
    if w == 0 {
        lines_of(s)
    } else {
        wrap_all(lines_of(s), w)
    }
}

/// Whether a wrapped line fits in `w` bytes, or is a single character
/// wider than that.
pub open spec fn fits_or_single(l: Seq<char>, w: nat) -> bool {
    utf8_len(l) <= w || l.len() <= 1
}

/// The view of a list of strings.
pub open spec fn strings_view(v: Seq<String>) -> Seq<Seq<char>> {
    v.map_values(|s: String| s@)
}

/// Counts how many characters of `v[a..hi]` fit in `w` bytes; also returns
/// their byte length.
pub fn fit_chars(v: &Vec<char>, a: usize, hi: usize, w: usize) -> (res: (usize, usize))
    requires
        a <= hi <= v.len(),
    ensures
        a <= res.0 <= hi,
        res.1 == byte_offset(v@.subrange(a as int, hi as int), res.0 - a),
        res.1 <= w,
        res.0 < hi ==> fits_exactly(v@.subrange(a as int, hi as int), w as nat, res.0 - a),
{
    let ghost r = v@.subrange(a as int, hi as int);
    let mut k = a;
    let mut acc: usize = 0;
    proof {
        lemma_take_all(r);
    }
    while k < hi && width_of(v[k]) <= w - acc
        invariant
            a <= k <= hi <= v.len(),
            r == v@.subrange(a as int, hi as int),
            acc == byte_offset(r, k - a),
            acc <= w,
        decreases hi - k,
    {
        proof {
            lemma_take_step(r, k - a);
        }
        acc = acc + width_of(v[k]);
        k = k + 1;
    }
    proof {
        if k < hi {
            lemma_take_step(r, k - a);
        }
    }
    (k, acc)
}

/// `fit_count` is the index at which the characters stop fitting.
proof fn lemma_fit_count(r: Seq<char>, w: nat, e: int)
    requires
        fits_exactly(r, w, e),
    ensures
        fit_count(r, w) == e,
        utf8_len(r) > w,
{
    lemma_offset_strict(r, e + 1, r.len() as int);
    lemma_take_all(r);
    let c = choose|k: int| fits_exactly(r, w, k);
    assert(fits_exactly(r, w, c));
    if c < e {
        lemma_offset_strict(r, c + 1, e);
    } else if c > e {
        lemma_offset_strict(r, e + 1, c);
    }
}

/// Some number of leading characters of a line wider than `w` bytes fits
/// exactly (one more would not).
proof fn lemma_fit_exists(r: Seq<char>, w: nat, k: int)
    requires
        0 <= k <= r.len(),
        byte_offset(r, k) <= w,
        utf8_len(r) > w,
    ensures
        exists|e: int| fits_exactly(r, w, e),
    decreases r.len() - k,
{
    lemma_take_all(r);
    if k == r.len() {
    } else if byte_offset(r, k + 1) > w {
        assert(fits_exactly(r, w, k));
    } else {
        lemma_fit_exists(r, w, k + 1);
    }
}

/// Wrapping law for a line that fits: it stays one line, as it is.
pub proof fn lemma_wrap_keeps_fitting_line(l: Seq<char>, w: nat)
    requires
        utf8_len(l) <= w,
    ensures
        wrap_line(l, w) == seq![l],
{
    if l.len() == 0 {
        assert(l =~= Seq::<char>::empty());
    }
}

/// Leading whitespace never exceeds the text.
proof fn lemma_leading_ws_bound(s: Seq<char>)
    ensures
        leading_ws(s) <= s.len(),
    decreases s.len(),
{
    if s.len() > 0 && is_ws(s[0]) {
        lemma_leading_ws_bound(s.drop_first());
    }
}

/// What `last_space_before` finds: the last space among the first `e`
/// characters, or that there is none.
proof fn lemma_last_space(r: Seq<char>, e: int)
    requires
        e <= r.len(),
    ensures
        match last_space_before(r, e) {
            Some(p) => 0 <= p < e && r[p] == ' ' && forall|j: int| p < j < e ==> r[j] != ' ',
            None => forall|j: int| 0 <= j < e ==> r[j] != ' ',
        },
    decreases e,
{
    if e > 0 && r[e - 1] != ' ' {
        lemma_last_space(r, e - 1);
    }
}

/// Wrapping law: a line wider than `w` bytes is broken after the last space
/// among the characters that fit in `w` bytes, or, when none of them is a
/// space, after as many characters as fit (at least one). The first wrapped
/// line is the part before the break without its trailing whitespace, no
/// space that fits lies after the break, and the remaining lines wrap the
/// rest without its leading whitespace.
pub proof fn lemma_wrap_breaks_after_last_fitting_space(r: Seq<char>, w: nat)
    requires
        w > 0,
        utf8_len(r) > w,
    ensures
        wrap_line(r, w) == wrap_rest(r, w),
        exists|b: int|
            {
                &&& 1 <= b <= r.len()
                &&& (byte_offset(r, b) <= w || b == 1)
                &&& forall|j: int|
                    b <= j < r.len() && byte_offset(r, j + 1) <= w ==> #[trigger] r[j] != ' '
                &&& (exists|j: int| 0 <= j < r.len() && byte_offset(r, j + 1) <= w && r[j] == ' ')
                    ==> r[b - 1] == ' '
                &&& (r[b - 1] == ' ' || b == 1 || byte_offset(r, b + 1) > w)
                &&& wrap_rest(r, w) == seq![trim_end(r.take(b))] + wrap_rest(
                    trim_start(r.skip(b)),
                    w,
                )
            },
{
    lemma_take_all(r);
    assert(r.take(0) =~= Seq::<char>::empty());
    lemma_fit_exists(r, w, 0);
    let e0 = choose|e: int| fits_exactly(r, w, e);
    lemma_fit_count(r, w, e0);
    let e = fit_count(r, w);
    lemma_last_space(r, e);
    let b = break_at(r, w);
    // a character fits exactly when it lies before `e`
    assert forall|j: int| #![trigger r[j]] 0 <= j < r.len() && byte_offset(r, j + 1) <= w implies j < e by {
        if j >= e {
            lemma_offset_strict(r, e + 1, j + 1);
        }
    }
    if b > 1 {
        lemma_offset_strict(r, b, e);
    }
    if let Some(p) = last_space_before(r, e) {
        assert(r[b - 1] == ' ');
    } else {
        if e > 0 {
            assert(b == e);
        }
    }
    lemma_leading_ws_bound(r.skip(b));
    assert(trim_start(r.skip(b)).len() < r.len());
    assert(wrap_rest(r, w) == seq![trim_end(r.take(b))] + wrap_rest(trim_start(r.skip(b)), w));
}

/// Wraps one line, the characters `v[lo..hi]`, appending its wrapped lines
/// to `out`.
#[verifier::spinoff_prover]
#[verifier::rlimit(30)]
fn wrap_line_into(v: &Vec<char>, lo: usize, hi: usize, w: usize, out: &mut Vec<String>)
    requires
        lo <= hi <= v.len(),
        w > 0,
    ensures
        strings_view(final(out)@) == strings_view(old(out)@) + wrap_line(
            v@.subrange(lo as int, hi as int),
            w as nat,
        ),
        forall|i: int|
            old(out)@.len() <= i < final(out)@.len() ==> fits_or_single(
                #[trigger] final(out)@[i]@,
                w as nat,
            ),
{
    let ghost line = v@.subrange(lo as int, hi as int);
    if lo == hi {
        out.push(String::new());
        assert(strings_view(out@) =~= strings_view(old(out)@) + wrap_line(line, w as nat));
        return ;
    }
    let mut a = lo;
    while a < hi
        invariant
            lo <= a <= hi <= v.len(),
            w > 0,
            line == v@.subrange(lo as int, hi as int),
            line.len() > 0,
            strings_view(old(out)@) + wrap_rest(line, w as nat) == strings_view(out@) + wrap_rest(
                v@.subrange(a as int, hi as int),
                w as nat,
            ),
            old(out)@.len() <= out@.len(),
            forall|i: int|
                old(out)@.len() <= i < out@.len() ==> fits_or_single(#[trigger] out@[i]@, w as nat),
        decreases hi - a,
    {
        let ghost r = v@.subrange(a as int, hi as int);
        let ghost before = strings_view(out@);
        let (k, acc) = fit_chars(v, a, hi, w);
        if k == hi {
            proof {
                lemma_take_all(r);
                assert(r.take(r.len() as int) =~= r);
            }
            let s = string_from_range(v, a, hi);
            out.push(s);
            a = hi;
            proof {
                assert(strings_view(out@) =~= before.push(r));
                assert(wrap_rest(v@.subrange(a as int, hi as int), w as nat) =~= Seq::<
                    Seq<char>,
                >::empty());
                assert(wrap_rest(r, w as nat) =~= seq![r]);
                assert(strings_view(out@) + Seq::<Seq<char>>::empty() =~= before + seq![r]);
            }
        } else {
            let ghost e = k - a;
            proof {
                lemma_fit_count(r, w as nat, e);
            }
            let mut p = k;
            while p > a && v[p - 1] != ' '
                invariant
                    a <= p <= k < hi <= v.len(),
                    r == v@.subrange(a as int, hi as int),
                    last_space_before(r, e) == last_space_before(r, p - a),
                decreases p,
            {
                assert(r[p - a - 1] == v@[p - 1]);
                p = p - 1;
            }
            let b = if p > a {
                assert(r[p - a - 1] == v@[p - 1]);
                p
            } else if k > a {
                k
            } else {
                a + 1
            };
            assert(b - a == break_at(r, w as nat));
            let ce = skip_ws_backward(v, a, b);
            proof {
                assert(r.take(b - a) =~= v@.subrange(a as int, b as int));
                assert(trim_end(r.take(b - a)) =~= v@.subrange(a as int, ce as int));
                lemma_utf8_len_subrange(r, 0, ce - a);
                if b <= k {
                    lemma_offset_strict(r, ce - a, k - a);
                }
                assert(r.subrange(0, ce - a) =~= v@.subrange(a as int, ce as int));
                lemma_take_all(r);
            }
            let chunk = string_from_range(v, a, ce);
            out.push(chunk);
            let na = skip_ws_forward(v, b, hi);
            proof {
                assert(r.skip(b - a) =~= v@.subrange(b as int, hi as int));
                assert(trim_start(r.skip(b - a)) =~= v@.subrange(na as int, hi as int));
                let rest = v@.subrange(na as int, hi as int);
                assert(wrap_rest(r, w as nat) == seq![trim_end(r.take(b - a))] + wrap_rest(
                    rest,
                    w as nat,
                ));
                assert(strings_view(out@) =~= before.push(trim_end(r.take(b - a))));
                assert(before + (seq![trim_end(r.take(b - a))] + wrap_rest(rest, w as nat))
                    =~= strings_view(out@) + wrap_rest(rest, w as nat));
            }
            a = na;
        }
    }
    proof {
        assert(wrap_rest(v@.subrange(a as int, hi as int), w as nat) =~= Seq::<Seq<char>>::empty());
        assert(strings_view(out@) + Seq::<Seq<char>>::empty() =~= strings_view(out@));
    }
}

/// Wraps `text` to lines of at most `max_width` bytes, breaking after the
/// last space that fits, or inside a word at a character boundary when none
/// does (a character wider than `max_width` gets a line of its own);
/// whitespace at a break is dropped, and empty lines are kept. With `max_width == 0` the
/// lines are returned as they are.
pub fn wrap_text(text: &str, max_width: usize) -> (r: Vec<String>)
    ensures
        strings_view(r@) == wrap_spec(text@, max_width as nat),
        max_width > 0 ==> forall|i: int|
            0 <= i < r@.len() ==> fits_or_single(#[trigger] r@[i]@, max_width as nat),
{
    let v = chars_of(text);
    let lines = line_ranges(&v);
    let ghost ls = lines_of(v@);
    assert(ranges_hold(v@, lines@, ls));
    let mut out: Vec<String> = Vec::new();
    let mut j: usize = 0;
    while j < lines.len()
        invariant
            v@ == text@,
            ls == lines_of(v@),
            lines@.len() == ls.len(),
            forall|i: int|
                0 <= i < lines@.len() ==> #[trigger] lines@[i].0 <= lines@[i].1 <= v.len()
                    && v@.subrange(lines@[i].0 as int, lines@[i].1 as int) == ls[i],
            0 <= j <= lines.len(),
            strings_view(out@) == (if max_width == 0 {
                ls.take(j as int)
            } else {
                wrap_all(ls.take(j as int), max_width as nat)
            }),
            max_width > 0 ==> forall|i: int|
                0 <= i < out@.len() ==> fits_or_single(#[trigger] out@[i]@, max_width as nat),
        decreases lines.len() - j,
    {
        let (lo, hi) = lines[j];
        let ghost prev = strings_view(out@);
        assert(ls.take(j + 1).drop_last() =~= ls.take(j as int));
        assert(ls.take(j + 1).last() == ls[j as int]);
        if max_width == 0 {
            let s = string_from_range(&v, lo, hi);
            out.push(s);
            assert(strings_view(out@) =~= ls.take(j + 1));
        } else {
            let ghost prev_out = out@;
            wrap_line_into(&v, lo, hi, max_width, &mut out);
            assert forall|i: int| 0 <= i < out@.len() implies fits_or_single(
                #[trigger] out@[i]@,
                max_width as nat,
            ) by {
                if i < prev_out.len() {
                    assert(strings_view(out@)[i] == strings_view(prev_out)[i]);
                }
            }
        }
        j = j + 1;
    }
    assert(ls.take(lines.len() as int) =~= ls);
    out
}

/// The largest character boundary of `s` at or before byte `pos` (or the
/// end of `s` when `pos` is past it).
pub fn safe_char_boundary(s: &str, pos: usize) -> (r: usize)
    ensures
        r == byte_offset(s@, fit_count(s@, pos as nat)),
        r <= pos,
{
    let v = chars_of(s);
    let (k, acc) = fit_chars(&v, 0, v.len(), pos);
    proof {
        assert(v@.subrange(0, v.len() as int) =~= s@);
        if k < v.len() {
            lemma_fit_count(s@, pos as nat, k as int);
        } else {
            lemma_take_all(s@);
        }
    }
    acc
}

// ---------------------------------------------------------------------------
// The message list
// ---------------------------------------------------------------------------
/// A single message in the chat.
#[derive(Debug, Clone)]
pub struct ChatMessage {
    /// `You` or `AI`.
    pub role: String,
    pub content: String,
}

/// Messages as pairs of role and content.
pub open spec fn messages_view(ms: Seq<ChatMessage>) -> Seq<(Seq<char>, Seq<char>)> {
    ms.map_values(|m: ChatMessage| (m.role@, m.content@))
}

/// The messages after a token is appended: it extends the content of the
/// last message when that message is the assistant's; otherwise nothing
/// changes.
pub open spec fn with_token(ms: Seq<(Seq<char>, Seq<char>)>, t: Seq<char>) -> Seq<
    (Seq<char>, Seq<char>),
> {
    if ms.len() > 0 && ms.last().0 == "AI"@ {
        ms.update(ms.len() - 1, (ms.last().0, ms.last().1 + t))
    } else {
        ms
    }
}

/// The scroll offset kept when a message is added: unchanged while the user
/// has scrolled up, back to the latest line otherwise.
pub open spec fn followed_scroll(scroll: u16, scrolled_up: bool) -> u16 {
    if scrolled_up {
        scroll
    } else {
        0
    }
}

/// The chat widget state.
pub struct ChatWidget {
    /// Accumulated messages.
    pub messages: Vec<ChatMessage>,
    /// Scroll offset from the bottom in lines (0 = latest view).
    pub scroll: u16,
    /// Whether the user has scrolled up (disables following new messages).
    pub scrolled_up: bool,
}

impl ChatWidget {
    /// The flag `scrolled_up` is set exactly when the view is off the latest
    /// line. `new` establishes this and every operation keeps it.
    pub open spec fn scroll_consistent(&self) -> bool {
        self.scrolled_up == (self.scroll > 0)
    }

    /// An empty chat that follows the latest messages.
    pub fn new() -> (w: Self)
        ensures
            w.messages@.len() == 0,
            w.scroll == 0,
            !w.scrolled_up,
            w.scroll_consistent(),
    {
        ChatWidget { messages: Vec::new(), scroll: 0, scrolled_up: false }
    }

    /// Adds a message of the user.
    pub fn add_user(&mut self, text: &str)
        ensures
            messages_view(final(self).messages@) == messages_view(old(self).messages@).push(
                ("You"@, text@),
            ),
            final(self).scroll == followed_scroll(old(self).scroll, old(self).scrolled_up),
            final(self).scrolled_up == old(self).scrolled_up,
            old(self).scroll_consistent() ==> final(self).scroll_consistent(),
    {
        let m = ChatMessage { role: string_of("You"), content: string_of(text) };
        self.messages.push(m);
        assert(messages_view(self.messages@) =~= messages_view(old(self).messages@).push(
            ("You"@, text@),
        ));
        self.reset_scroll();
    }

    /// Starts an assistant message, empty until tokens are appended.
    pub fn start_ai(&mut self)
        ensures
            messages_view(final(self).messages@) == messages_view(old(self).messages@).push(
                ("AI"@, Seq::<char>::empty()),
            ),
            final(self).scroll == followed_scroll(old(self).scroll, old(self).scrolled_up),
            final(self).scrolled_up == old(self).scrolled_up,
            old(self).scroll_consistent() ==> final(self).scroll_consistent(),
    {
        let m = ChatMessage { role: string_of("AI"), content: String::new() };
        self.messages.push(m);
        assert(messages_view(self.messages@) =~= messages_view(old(self).messages@).push(
            ("AI"@, Seq::<char>::empty()),
        ));
        self.reset_scroll();
    }

    /// Appends a token to the latest message when it is the assistant's.
    pub fn append_token(&mut self, token: &str)
        ensures
            messages_view(final(self).messages@) == with_token(
                messages_view(old(self).messages@),
                token@,
            ),
            final(self).scroll == old(self).scroll,
            final(self).scrolled_up == old(self).scrolled_up,
            old(self).scroll_consistent() ==> final(self).scroll_consistent(),
    {
        let n = self.messages.len();
        if n > 0 && str_equal(self.messages[n - 1].role.as_str(), "AI") {
            let ghost before = self.messages@;
            let mut last = self.messages.pop().unwrap();
            last.content.append(token);
            self.messages.push(last);
            assert(messages_view(self.messages@) =~= with_token(messages_view(before), token@));
        }
    }

    /// Scrolls up by `n` lines (saturating).
    pub fn scroll_up(&mut self, n: u16)
        ensures
            final(self).scroll == old(self).scroll.saturating_add(n),
            final(self).scrolled_up == (final(self).scroll > 0),
            final(self).messages@ == old(self).messages@,
            final(self).scroll_consistent(),
    {
        self.scroll = self.scroll.saturating_add(n);
        self.scrolled_up = self.scroll > 0;
    }

    /// Scrolls down by `n` lines (saturating at the latest line).
    pub fn scroll_down(&mut self, n: u16)
        ensures
            final(self).scroll == old(self).scroll.saturating_sub(n),
            final(self).scrolled_up == (final(self).scroll > 0),
            final(self).messages@ == old(self).messages@,
            final(self).scroll_consistent(),
    {
        self.scroll = self.scroll.saturating_sub(n);
        self.scrolled_up = self.scroll > 0;
    }

    /// Goes back to following the latest messages unless the user scrolled up.
    pub fn reset_scroll(&mut self)
        ensures
            final(self).scroll == followed_scroll(old(self).scroll, old(self).scrolled_up),
            final(self).scrolled_up == old(self).scrolled_up,
            final(self).messages@ == old(self).messages@,
            old(self).scroll_consistent() ==> final(self).scroll_consistent(),
    {
        if !self.scrolled_up {
            self.scroll = 0;
        }
    }
}

// ---------------------------------------------------------------------------
// Layout of the chat view
// ---------------------------------------------------------------------------
/// A line of the chat view.
pub enum ChatLine {
    /// The label of a user's message.
    UserLabel,
    /// The label of an assistant's message.
    AiLabel,
    /// A line of message text.
    Text(String),
    /// The blank line after a message.
    Blank,
}

/// `ChatLine` as plain values.
pub enum ChatLineModel {
    UserLabel,
    AiLabel,
    Text(Seq<char>),
    Blank,
}

impl View for ChatLine {
    type V = ChatLineModel;

    open spec fn view(&self) -> ChatLineModel {
        match self {
            ChatLine::UserLabel => ChatLineModel::UserLabel,
            ChatLine::AiLabel => ChatLineModel::AiLabel,
            ChatLine::Text(t) => ChatLineModel::Text(t@),
            ChatLine::Blank => ChatLineModel::Blank,
        }
    }
}

/// The view of a list of chat lines.
pub open spec fn chat_lines_view(v: Seq<ChatLine>) -> Seq<ChatLineModel> {
    v.map_values(|l: ChatLine| l@)
}

/// The text lines of wrapped content.
pub open spec fn text_lines(ls: Seq<Seq<char>>) -> Seq<ChatLineModel> {
    ls.map_values(|l: Seq<char>| ChatLineModel::Text(l))
}

/// The lines of one message: its label (the user's for `You`, the
/// assistant's otherwise), its content wrapped to `w` bytes, a blank line.
pub open spec fn message_lines(m: (Seq<char>, Seq<char>), w: nat) -> Seq<ChatLineModel> {
    seq![
        if m.0 == "You"@ {
            ChatLineModel::UserLabel
        } else {
            ChatLineModel::AiLabel
        },
    ] + text_lines(wrap_spec(m.1, w)) + seq![ChatLineModel::Blank]
}

/// The lines of all messages, in order.
pub open spec fn chat_lines(ms: Seq<(Seq<char>, Seq<char>)>, w: nat) -> Seq<ChatLineModel>
    decreases ms.len(),
{
    if ms.len() == 0 {
        Seq::empty()
    } else {
        chat_lines(ms.drop_last(), w) + message_lines(ms.last(), w)
    }
}

proof fn lemma_lines_view_push(v: Seq<ChatLine>, x: ChatLine)
    ensures
        chat_lines_view(v.push(x)) == chat_lines_view(v).push(x@),
{
    assert(chat_lines_view(v.push(x)) =~= chat_lines_view(v).push(x@));
}

proof fn lemma_text_lines_take(ls: Seq<Seq<char>>, j: int)
    requires
        0 <= j < ls.len(),
    ensures
        text_lines(ls.take(j + 1)) == text_lines(ls.take(j)).push(ChatLineModel::Text(ls[j])),
{
    assert(ls.take(j + 1) =~= ls.take(j).push(ls[j]));
    assert(text_lines(ls.take(j + 1)) =~= text_lines(ls.take(j)).push(ChatLineModel::Text(ls[j])));
}

/// The width of message text in a view `area_width` columns wide.
pub fn content_width(area_width: u16) -> (w: usize)
    ensures
        w == area_width.saturating_sub(2),
{
    area_width.saturating_sub(2) as usize
}

impl ChatWidget {
    /// The lines of the chat view for text `width` bytes wide.
    pub fn layout(&self, width: usize) -> (r: Vec<ChatLine>)
        ensures
            chat_lines_view(r@) == chat_lines(messages_view(self.messages@), width as nat),
    {
        let ghost ms = messages_view(self.messages@);
        let mut out: Vec<ChatLine> = Vec::new();
        let mut i: usize = 0;
        while i < self.messages.len()
            invariant
                ms == messages_view(self.messages@),
                i <= self.messages@.len(),
                chat_lines_view(out@) == chat_lines(ms.take(i as int), width as nat),
            decreases self.messages.len() - i,
        {
            let m = &self.messages[i];
            let ghost before = chat_lines_view(out@);
            assert(ms[i as int] == (m.role@, m.content@));
            let label = if str_equal(m.role.as_str(), "You") {
                ChatLine::UserLabel
            } else {
                ChatLine::AiLabel
            };
            proof {
                lemma_lines_view_push(out@, label);
            }
            out.push(label);
            let lines = wrap_text(m.content.as_str(), width);
            let mut j: usize = 0;
            let ghost label_end = chat_lines_view(out@);
            while j < lines.len()
                invariant
                    j <= lines@.len(),
                    chat_lines_view(out@) == label_end + text_lines(strings_view(lines@).take(j as int)),
                decreases lines.len() - j,
            {
                let t = string_of(lines[j].as_str());
                let line = ChatLine::Text(t);
                proof {
                    lemma_lines_view_push(out@, line);
                    lemma_text_lines_take(strings_view(lines@), j as int);
                    assert(label_end + text_lines(strings_view(lines@).take(j + 1)) =~= (label_end
                        + text_lines(strings_view(lines@).take(j as int))).push(line@));
                }
                out.push(line);
                j = j + 1;
            }
            proof {
                lemma_lines_view_push(out@, ChatLine::Blank);
            }
            out.push(ChatLine::Blank);
            proof {
                assert(strings_view(lines@).take(lines@.len() as int) =~= strings_view(lines@));
                assert(ms.take(i + 1).drop_last() =~= ms.take(i as int));
                assert(ms.take(i + 1).last() == ms[i as int]);
                assert(chat_lines_view(out@) =~= before + message_lines(ms[i as int], width as nat));
            }
            i = i + 1;
        }
        assert(ms.take(self.messages@.len() as int) =~= ms);
        out
    }
}

} // verus!

//! Reading the sidecar's token stream as its body arrives in chunks of
//! bytes. Lines are cut at newline bytes before they are decoded, so a line
//! or a character split between chunks is read whole: however the body is
//! cut, the reader forwards what reading the whole body at once gives.
use vstd::prelude::*;
use crate::agent::{forward_lines, line_decision, stream_line_step, StepModel, StreamStep};
use crate::chat::{strip_cr, strings_view};
use crate::text::{chars_of, string_from_range, string_of};

verus! {

// ---------------------------------------------------------------------------
// Lines of bytes
// ---------------------------------------------------------------------------
/// No byte of `s` is a newline.
pub open spec fn no_newline(s: Seq<u8>) -> bool {
    forall|i: int| 0 <= i < s.len() ==> #[trigger] s[i] != 10u8
}

/// The index of the first newline byte of `s` (its length when it has none).
pub open spec fn first_newline(s: Seq<u8>) -> nat
    decreases s.len(),
{
    if s.len() == 0 {
        0
    } else if s[0] == 10u8 {
        0
    } else {
        1 + first_newline(s.drop_first())
    }
}

/// The lines of `s` as `str::lines` cuts them, on bytes: split at each
/// newline byte, with no empty line after a final newline.
pub open spec fn byte_lines(s: Seq<u8>) -> Seq<Seq<u8>>
    decreases s.len(),
{
    if s.len() == 0 {
        Seq::empty()
    } else if first_newline(s) >= s.len() {
        seq![s]
    } else {
        seq![s.take(first_newline(s) as int)] + byte_lines(s.skip(first_newline(s) as int + 1))
    }
}

/// The part of `s` up to and including its last newline byte (empty when
/// it has none): the lines of `s` that are complete.
pub open spec fn complete_lines(s: Seq<u8>) -> Seq<u8>
    decreases s.len(),
{
    if s.len() == 0 || s.last() == 10u8 {
        s
    } else {
        complete_lines(s.drop_last())
    }
}

/// `s` is empty or ends with a newline byte.
pub open spec fn ends_line(s: Seq<u8>) -> bool {
    s.len() == 0 || s.last() == 10u8
}

// ---------------------------------------------------------------------------
// Decoding
// ---------------------------------------------------------------------------
/// The text `String::from_utf8_lossy` makes of `bytes` (invalid sequences
/// become U+FFFD); it depends on the bytes alone.
pub uninterp spec fn spec_utf8_lossy(bytes: Seq<u8>) -> Seq<char>;

/// Decodes bytes with `String::from_utf8_lossy`.
#[verifier::external_body]
fn utf8_lossy(bytes: &[u8]) -> (s: String)
    ensures
        s@ == spec_utf8_lossy(bytes@),
{
    String::from_utf8_lossy(bytes).into_owned()
}

/// A line of bytes as text: decoded, without the `\r` of a `\r\n` ending.
pub open spec fn decoded_line(l: Seq<u8>) -> Seq<char> {
    strip_cr(spec_utf8_lossy(l))
}

/// Each line of bytes as text.
pub open spec fn decoded_lines(ls: Seq<Seq<u8>>) -> Seq<Seq<char>> {
    ls.map_values(|l: Seq<u8>| decoded_line(l))
}

// ---------------------------------------------------------------------------
// The reader, as a model
// ---------------------------------------------------------------------------
/// What reading `chunk` gives when `pending` is left from before: the
/// strings forwarded for the complete lines of the two together, whether
/// the stream is over, and what stays pending.
pub open spec fn feed_result(pending: Seq<u8>, chunk: Seq<u8>) -> (Seq<Seq<char>>, bool, Seq<u8>) {
    let all = pending + chunk;
    let done = complete_lines(all);
    let r = forward_lines(decoded_lines(byte_lines(done)));
    (r.0, r.1, all.skip(done.len() as int))
}

/// The final string sent when the stream closes without a final message.
pub open spec fn stream_ended() -> Seq<char> {
    "\u{0}⚠️ Stream ended"@
}

/// What reading the bytes left pending when the stream closes gives: the
/// strings forwarded for their lines (the last may lack its newline), and
/// the closing notice when no final string came.
pub open spec fn rest_result(pending: Seq<u8>) -> Seq<Seq<char>> {
    let r = forward_lines(decoded_lines(byte_lines(pending)));
    if r.1 {
        r.0
    } else {
        r.0.push(stream_ended())
    }
}

/// Reads a sequence of chunks in turn, stopping after the one that ends the
/// stream: the strings forwarded, whether the stream is over, and what is
/// left pending.
pub open spec fn read_chunks(chunks: Seq<Seq<u8>>) -> (Seq<Seq<char>>, bool, Seq<u8>)
    decreases chunks.len(),
{
    if chunks.len() == 0 {
        (Seq::empty(), false, Seq::empty())
    } else {
        let (o, f, p) = read_chunks(chunks.drop_last());
        if f {
            (o, f, p)
        } else {
            let (o2, f2, p2) = feed_result(p, chunks.last());
            (o + o2, f2, p2)
        }
    }
}

/// What the reader forwards for a body that arrives as `chunks`: the
/// chunks read in turn, then what is left when the body ends.
pub open spec fn read_stream(chunks: Seq<Seq<u8>>) -> Seq<Seq<char>> {
    let (o, f, p) = read_chunks(chunks);
    if f {
        o
    } else {
        o + rest_result(p)
    }
}

/// The bytes of the chunks, one after the other.
pub open spec fn joined(chunks: Seq<Seq<u8>>) -> Seq<u8>
    decreases chunks.len(),
{
    if chunks.len() == 0 {
        Seq::empty()
    } else {
        joined(chunks.drop_last()) + chunks.last()
    }
}

// ---------------------------------------------------------------------------
// Lemmas
// ---------------------------------------------------------------------------
proof fn lemma_first_newline_at(s: Seq<u8>, m: int)
    requires
        0 <= m <= s.len(),
        forall|j: int| 0 <= j < m ==> #[trigger] s[j] != 10u8,
        m < s.len() ==> s[m] == 10u8,
    ensures
        first_newline(s) == m,
    decreases m,
{
    if m > 0 {
        let t = s.drop_first();
        assert forall|j: int| 0 <= j < m - 1 implies #[trigger] t[j] != 10u8 by {
            assert(t[j] == s[j + 1]);
        }
        if m < s.len() {
            assert(t[m - 1] == s[m]);
        }
        lemma_first_newline_at(t, m - 1);
    }
}

proof fn lemma_first_newline_bound(s: Seq<u8>)
    ensures
        first_newline(s) <= s.len(),
        forall|j: int| 0 <= j < first_newline(s) ==> #[trigger] s[j] != 10u8,
        first_newline(s) < s.len() ==> s[first_newline(s) as int] == 10u8,
    decreases s.len(),
{
    if s.len() > 0 && s[0] != 10u8 {
        let t = s.drop_first();
        lemma_first_newline_bound(t);
        assert forall|j: int| 0 <= j < first_newline(s) implies #[trigger] s[j] != 10u8 by {
            if j > 0 {
                assert(s[j] == t[j - 1]);
            }
        }
    }
}

proof fn lemma_byte_lines_concat(x: Seq<u8>, y: Seq<u8>)
    requires
        ends_line(x),
    ensures
        byte_lines(x + y) == byte_lines(x) + byte_lines(y),
    decreases x.len(),
{
    if x.len() == 0 {
        assert(x + y =~= y);
        assert(byte_lines(x) + byte_lines(y) =~= byte_lines(y));
    } else {
        lemma_first_newline_bound(x);
        let k = first_newline(x);
        if k >= x.len() {
            assert(x[x.len() - 1] == 10u8);
        }
        assert(k < x.len());
        let xy = x + y;
        assert forall|j: int| 0 <= j < k implies #[trigger] xy[j] != 10u8 by {
            assert(xy[j] == x[j]);
        }
        lemma_first_newline_at(xy, k as int);
        let rest = x.skip(k as int + 1);
        assert(xy.take(k as int) =~= x.take(k as int));
        assert(xy.skip(k as int + 1) =~= rest + y);
        if rest.len() > 0 {
            assert(rest.last() == x.last());
        }
        lemma_byte_lines_concat(rest, y);
        assert(byte_lines(xy) =~= byte_lines(x) + byte_lines(y));
    }
}

proof fn lemma_byte_lines_single(s: Seq<u8>)
    requires
        no_newline(s),
    ensures
        byte_lines(s) == (if s.len() == 0 {
            Seq::<Seq<u8>>::empty()
        } else {
            seq![s]
        }),
{
    lemma_first_newline_at(s, s.len() as int);
}

proof fn lemma_complete_lines_shape(s: Seq<u8>)
    ensures
        complete_lines(s) == s.take(complete_lines(s).len() as int),
        complete_lines(s).len() <= s.len(),
        ends_line(complete_lines(s)),
        no_newline(s.skip(complete_lines(s).len() as int)),
    decreases s.len(),
{
    if !(s.len() == 0 || s.last() == 10u8) {
        let t = s.drop_last();
        lemma_complete_lines_shape(t);
        let c = complete_lines(t).len() as int;
        assert(t.take(c) =~= s.take(c));
        assert forall|i: int| 0 <= i < s.skip(c).len() implies #[trigger] s.skip(c)[i] != 10u8 by {
            if c + i < t.len() {
                assert(s.skip(c)[i] == t.skip(c)[i]);
            }
        }
    } else {
        assert(s.take(s.len() as int) =~= s);
        assert(s.skip(s.len() as int) =~= Seq::<u8>::empty());
    }
}

proof fn lemma_complete_lines_no_newline(a: Seq<u8>, b: Seq<u8>)
    requires
        no_newline(b),
    ensures
        complete_lines(a + b) == complete_lines(a),
    decreases b.len(),
{
    if b.len() == 0 {
        assert(a + b =~= a);
    } else {
        assert((a + b).drop_last() =~= a + b.drop_last());
        assert((a + b).last() == b[b.len() - 1]);
        lemma_complete_lines_no_newline(a, b.drop_last());
    }
}

proof fn lemma_complete_lines_newline(a: Seq<u8>, b: Seq<u8>)
    requires
        !no_newline(b),
    ensures
        complete_lines(a + b) == a + complete_lines(b),
    decreases b.len(),
{
    if b.last() == 10u8 {
        assert((a + b).last() == 10u8);
    } else {
        let i = choose|i: int| 0 <= i < b.len() && b[i] == 10u8;
        assert(b.drop_last()[i] == b[i]);
        assert((a + b).drop_last() =~= a + b.drop_last());
        lemma_complete_lines_newline(a, b.drop_last());
    }
}

proof fn lemma_forward_concat(a: Seq<Seq<char>>, b: Seq<Seq<char>>)
    ensures
        forward_lines(a + b) == (if forward_lines(a).1 {
            forward_lines(a)
        } else {
            (forward_lines(a).0 + forward_lines(b).0, forward_lines(b).1)
        }),
    decreases a.len(),
{
    if a.len() == 0 {
        assert(a + b =~= b);
        assert(Seq::<Seq<char>>::empty() + forward_lines(b).0 =~= forward_lines(b).0);
    } else {
        assert((a + b)[0] == a[0]);
        assert((a + b).drop_first() =~= a.drop_first() + b);
        lemma_forward_concat(a.drop_first(), b);
        match line_decision(a[0]) {
            StepModel::Emit(t) => {
                assert(seq![t] + (forward_lines(a.drop_first()).0 + forward_lines(b).0) =~= (
                seq![t] + forward_lines(a.drop_first()).0) + forward_lines(b).0);
            },
            _ => {},
        }
    }
}

proof fn lemma_decoded_concat(a: Seq<Seq<u8>>, b: Seq<Seq<u8>>)
    ensures
        decoded_lines(a + b) == decoded_lines(a) + decoded_lines(b),
{
    assert(decoded_lines(a + b) =~= decoded_lines(a) + decoded_lines(b));
}

/// The lines read from `pending + chunk`: those of its complete part, then
/// those of what stays pending.
proof fn lemma_feed_split(pending: Seq<u8>, chunk: Seq<u8>)
    ensures
        ({
            let all = pending + chunk;
            let done = complete_lines(all);
            &&& all == done + all.skip(done.len() as int)
            &&& no_newline(all.skip(done.len() as int))
            &&& byte_lines(all) == byte_lines(done) + byte_lines(all.skip(done.len() as int))
        }),
{
    let all = pending + chunk;
    lemma_complete_lines_shape(all);
    let done = complete_lines(all);
    assert(all =~= done + all.skip(done.len() as int));
    lemma_byte_lines_concat(done, all.skip(done.len() as int));
}

/// Two chunks read one after the other give what reading them joined in
/// one chunk gives (the second is read only when the first did not end
/// the stream).
proof fn lemma_feed_twice(p: Seq<u8>, a: Seq<u8>, b: Seq<u8>)
    ensures
        feed_result(p, a).1 ==> feed_result(p, a + b).0 == feed_result(p, a).0 && feed_result(
            p,
            a + b,
        ).1,
        !feed_result(p, a).1 ==> feed_result(p, a + b) == ({
            let q = feed_result(p, a).2;
            (feed_result(p, a).0 + feed_result(q, b).0, feed_result(q, b).1, feed_result(q, b).2)
        }),
{
    let all = p + a;
    lemma_complete_lines_shape(all);
    let c1 = complete_lines(all);
    let q = all.skip(c1.len() as int);
    assert(all =~= c1 + q);
    let all2 = p + (a + b);
    assert(all2 =~= all + b);
    assert(all2 =~= c1 + (q + b));
    if no_newline(b) {
        lemma_complete_lines_no_newline(all, b);
        assert(no_newline(q + b)) by {
            assert forall|i: int| 0 <= i < (q + b).len() implies #[trigger] (q + b)[i] != 10u8 by {
                if i < q.len() {
                    assert((q + b)[i] == q[i]);
                } else {
                    assert((q + b)[i] == b[i - q.len()]);
                }
            }
        }
        lemma_complete_lines_no_newline(Seq::<u8>::empty(), q + b);
        assert(Seq::<u8>::empty() + (q + b) =~= q + b);
        assert(complete_lines(Seq::<u8>::empty()) == Seq::<u8>::empty());
        assert(complete_lines(q + b) =~= Seq::<u8>::empty());
    } else {
        lemma_complete_lines_newline(all, b);
        lemma_complete_lines_newline(q, b);
    }
    let c2 = complete_lines(q + b);
    lemma_complete_lines_shape(q + b);
    assert(complete_lines(all2) =~= c1 + c2);
    lemma_byte_lines_concat(c1, c2);
    lemma_decoded_concat(byte_lines(c1), byte_lines(c2));
    lemma_forward_concat(decoded_lines(byte_lines(c1)), decoded_lines(byte_lines(c2)));
    assert(all2.skip((c1 + c2).len() as int) =~= (q + b).skip(c2.len() as int));
}

/// Reading a chunk and then closing gives what closing on the chunk with
/// the pending bytes gives.
proof fn lemma_feed_then_rest(p: Seq<u8>, a: Seq<u8>)
    ensures
        feed_result(p, a).1 ==> rest_result(p + a) == feed_result(p, a).0,
        !feed_result(p, a).1 ==> rest_result(p + a) == feed_result(p, a).0 + rest_result(
            feed_result(p, a).2,
        ),
{
    lemma_feed_split(p, a);
    let all = p + a;
    let done = complete_lines(all);
    let q = all.skip(done.len() as int);
    lemma_decoded_concat(byte_lines(done), byte_lines(q));
    lemma_forward_concat(decoded_lines(byte_lines(done)), decoded_lines(byte_lines(q)));
    let f1 = forward_lines(decoded_lines(byte_lines(done)));
    let f2 = forward_lines(decoded_lines(byte_lines(q)));
    if !f1.1 && !f2.1 {
        assert((f1.0 + f2.0).push(stream_ended()) =~= f1.0 + f2.0.push(stream_ended()));
    }
}

/// Chunking law: however the body of the stream is cut into chunks, the
/// reader forwards exactly what reading the whole body at once gives.
pub proof fn lemma_chunking_irrelevant(chunks: Seq<Seq<u8>>)
    ensures
        read_stream(chunks) == rest_result(joined(chunks)),
{
    lemma_read_chunks_joined(chunks);
    let x = joined(chunks);
    lemma_feed_then_rest(Seq::<u8>::empty(), x);
    assert(Seq::<u8>::empty() + x =~= x);
}

/// Reading chunks in turn gives what feeding them joined gives.
proof fn lemma_read_chunks_joined(chunks: Seq<Seq<u8>>)
    ensures
        ({
            let (o, f, p) = read_chunks(chunks);
            let r = feed_result(Seq::<u8>::empty(), joined(chunks));
            &&& r.0 == o
            &&& r.1 == f
            &&& !f ==> r.2 == p
        }),
    decreases chunks.len(),
{
    let e = Seq::<u8>::empty();
    if chunks.len() == 0 {
        assert(e + e =~= e);
        assert(complete_lines(e) == e);
        lemma_first_newline_at(e, 0);
        assert(byte_lines(e) =~= Seq::<Seq<u8>>::empty());
        assert(decoded_lines(Seq::<Seq<u8>>::empty()) =~= Seq::<Seq<char>>::empty());
        assert(e.skip(0) =~= e);
    } else {
        let rest = chunks.drop_last();
        lemma_read_chunks_joined(rest);
        let x = joined(rest);
        let c = chunks.last();
        lemma_feed_twice(e, x, c);
        assert(e + (x + c) =~= x + c);
        assert(e + x =~= x);
    }
}

// ---------------------------------------------------------------------------
// The reader
// ---------------------------------------------------------------------------
/// The bytes `v[lo..hi]` as a new vector.
fn byte_range(v: &[u8], lo: usize, hi: usize) -> (r: Vec<u8>)
    requires
        lo <= hi <= v.len(),
    ensures
        r@ == v@.subrange(lo as int, hi as int),
{
    let mut r: Vec<u8> = Vec::new();
    let mut i: usize = lo;
    while i < hi
        invariant
            lo <= i <= hi <= v.len(),
            r@ == v@.subrange(lo as int, i as int),
        decreases hi - i,
    {
        r.push(v[i]);
        assert(r@ =~= v@.subrange(lo as int, i + 1));
        i = i + 1;
    }
    r
}

/// The line `v[lo..hi]` as text (see `decoded_line`).
fn decode_line_at(v: &[u8], lo: usize, hi: usize) -> (s: String)
    requires
        lo <= hi <= v.len(),
    ensures
        s@ == decoded_line(v@.subrange(lo as int, hi as int)),
{
    let bytes = byte_range(v, lo, hi);
    let text = utf8_lossy(bytes.as_slice());
    let c = chars_of(text.as_str());
    if c.len() > 0 && c[c.len() - 1] == '\r' {
        let r = string_from_range(&c, 0, c.len() - 1);
        assert(r@ =~= c@.drop_last());
        r
    } else {
        text
    }
}

/// Reads the lines of `v[lo..hi]`: the strings to forward, in order, and
/// whether a final string ended the stream.
fn forward_byte_lines(v: &[u8], lo: usize, hi: usize) -> (r: (Vec<String>, bool))
    requires
        lo <= hi <= v.len(),
    ensures
        (strings_view(r.0@), r.1) == forward_lines(
            decoded_lines(byte_lines(v@.subrange(lo as int, hi as int))),
        ),
{
    let ghost target = forward_lines(decoded_lines(byte_lines(v@.subrange(lo as int, hi as int))));
    let mut out: Vec<String> = Vec::new();
    let mut start: usize = lo;
    let mut i: usize = lo;
    proof {
        assert(strings_view(out@) + target.0 =~= target.0);
    }
    while i < hi
        invariant
            lo <= start <= i <= hi <= v.len(),
            target == forward_lines(decoded_lines(byte_lines(v@.subrange(lo as int, hi as int)))),
            forall|j: int| start <= j < i ==> #[trigger] v@[j] != 10u8,
            target == ({
                let rest = forward_lines(
                    decoded_lines(byte_lines(v@.subrange(start as int, hi as int))),
                );
                (strings_view(out@) + rest.0, rest.1)
            }),
        decreases hi - i,
    {
        if v[i] == 10u8 {
            let ghost t = v@.subrange(start as int, hi as int);
            let ghost m = i - start;
            proof {
                assert forall|j: int| 0 <= j < m implies #[trigger] t[j] != 10u8 by {
                    assert(t[j] == v@[start + j]);
                }
                lemma_first_newline_at(t, m);
                assert(t.take(m) =~= v@.subrange(start as int, i as int));
                assert(t.skip(m + 1) =~= v@.subrange(i + 1, hi as int));
            }
            let ghost line = v@.subrange(start as int, i as int);
            let ghost rest_lines = byte_lines(v@.subrange(i + 1, hi as int));
            let ghost d = decoded_lines(byte_lines(t));
            proof {
                assert(byte_lines(t) == seq![line] + rest_lines);
                assert(d.len() == rest_lines.len() + 1);
                assert(d[0] == decoded_line(line));
                assert(d.drop_first() =~= decoded_lines(rest_lines));
            }
            let text = decode_line_at(v, start, i);
            let ghost before = strings_view(out@);
            match stream_line_step(text.as_str()) {
                StreamStep::Continue => {},
                StreamStep::Emit(tok) => {
                    out.push(tok);
                    proof {
                        let rest = forward_lines(decoded_lines(rest_lines));
                        assert(strings_view(out@) =~= before.push(
                            line_decision(decoded_line(line))->Emit_0,
                        ));
                        assert(before + (seq![line_decision(decoded_line(line))->Emit_0] + rest.0)
                            =~= strings_view(out@) + rest.0);
                    }
                },
                StreamStep::Finish(f) => {
                    out.push(f);
                    proof {
                        let fin = line_decision(decoded_line(line))->Finish_0;
                        assert(line_decision(d[0]) == StepModel::Finish(fin));
                        assert(forward_lines(d) == (seq![fin], true));
                        assert(strings_view(out@) =~= before + seq![fin]);
                    }
                    return (out, true);
                },
            }
            start = i + 1;
        }
        i = i + 1;
    }
    let ghost t = v@.subrange(start as int, hi as int);
    proof {
        assert forall|j: int| 0 <= j < t.len() implies #[trigger] t[j] != 10u8 by {
            assert(t[j] == v@[start + j]);
        }
        lemma_byte_lines_single(t);
    }
    let ghost d = decoded_lines(byte_lines(t));
    if start < hi {
        proof {
            assert(byte_lines(t) == seq![t]);
            assert(d.len() == 1);
            assert(d[0] == decoded_line(t));
            assert(d.drop_first() =~= Seq::<Seq<char>>::empty());
        }
        let text = decode_line_at(v, start, hi);
        let ghost before = strings_view(out@);
        match stream_line_step(text.as_str()) {
            StreamStep::Continue => {
                assert(forward_lines(d.drop_first()) == (Seq::<Seq<char>>::empty(), false));
                assert(forward_lines(d) == (Seq::<Seq<char>>::empty(), false));
            },
            StreamStep::Emit(tok) => {
                out.push(tok);
                let ghost e = line_decision(decoded_line(t))->Emit_0;
                assert(forward_lines(d.drop_first()) == (Seq::<Seq<char>>::empty(), false));
                assert(seq![e] + Seq::<Seq<char>>::empty() =~= seq![e]);
                assert(forward_lines(d) == (seq![e], false));
                assert(strings_view(out@) =~= before + seq![e]);
            },
            StreamStep::Finish(f) => {
                out.push(f);
                assert(strings_view(out@) =~= before + seq![
                    line_decision(decoded_line(t))->Finish_0,
                ]);
                return (out, true);
            },
        }
        assert(strings_view(out@) + Seq::<Seq<char>>::empty() =~= strings_view(out@));
    } else {
        assert(d =~= Seq::<Seq<char>>::empty());
        assert(forward_lines(d) == (Seq::<Seq<char>>::empty(), false));
        assert(strings_view(out@) + Seq::<Seq<char>>::empty() =~= strings_view(out@));
    }
    (out, false)
}

/// Reads one chunk of the body as it arrives: `pending` holds the
/// unfinished last line of what came before (see `feed_result`). The
/// complete lines are handled as `stream_chunk` does (tokens in order, up to
/// and including a final string); what follows the last newline stays
/// pending.
pub fn stream_feed(pending: &mut Vec<u8>, chunk: &[u8]) -> (r: (Vec<String>, bool))
    ensures
        (strings_view(r.0@), r.1, final(pending)@) == feed_result(old(pending)@, chunk@),
{
    let ghost text = old(pending)@ + chunk@;
    let mut i: usize = 0;
    while i < chunk.len()
        invariant
            i <= chunk@.len(),
            pending@ == old(pending)@ + chunk@.take(i as int),
        decreases chunk.len() - i,
    {
        pending.push(chunk[i]);
        assert(chunk@.take(i + 1) =~= chunk@.take(i as int).push(chunk@[i as int]));
        i = i + 1;
    }
    assert(chunk@.take(chunk@.len() as int) =~= chunk@);
    let v: &Vec<u8> = pending;
    assert(v@ == text);
    let mut k: usize = v.len();
    assert(v@.take(k as int) =~= v@);
    while k > 0 && v[k - 1] != 10u8
        invariant
            k <= v.len(),
            complete_lines(v@) == complete_lines(v@.take(k as int)),
        decreases k,
    {
        assert(v@.take(k as int).drop_last() =~= v@.take(k - 1));
        k = k - 1;
    }
    proof {
        assert(complete_lines(v@.take(k as int)) == v@.take(k as int));
        assert(v@.subrange(0, k as int) =~= v@.take(k as int));
        assert(v@.subrange(k as int, v.len() as int) =~= v@.skip(k as int));
    }
    let r = forward_byte_lines(v.as_slice(), 0, k);
    let rest = byte_range(v.as_slice(), k, v.len());
    *pending = rest;
    r
}

/// Reads what is left pending when the body ends (see `rest_result`): its
/// lines, the last of which may lack its newline, and the closing notice
/// when no final string came.
pub fn stream_rest(pending: &[u8]) -> (r: Vec<String>)
    ensures
        strings_view(r@) == rest_result(pending@),
{
    let (mut out, finished) = forward_byte_lines(pending, 0, pending.len());
    assert(pending@.subrange(0, pending@.len() as int) =~= pending@);
    if !finished {
        let ghost before = strings_view(out@);
        out.push(string_of("\u{0}⚠️ Stream ended"));
        assert(strings_view(out@) =~= before.push(stream_ended()));
    }
    out
}

} // verus!

//! Cutting a byte stream into whole messages, keeping any partial tail for later.
use vstd::prelude::*;
use crate::header::{length_field, message_length, BGP_HEADER_SIZE, BGP_MAX_MSG_SIZE};
use crate::wire::{copy_range, push_all};

verus! {

/// The length of the frame at the start of `s`, when a whole one with a usable
/// length field is there.
pub open spec fn frame_len(s: Seq<u8>) -> Option<nat> {
    if s.len() >= 19 && 19 <= length_field(s) <= 4096 && s.len() >= length_field(s) {
        Some(length_field(s))
    } else {
        None
    }
}

/// The whole frames at the start of `s`, in order.
pub open spec fn frames_of(s: Seq<u8>) -> Seq<Seq<u8>>
    decreases s.len(),
{
    match frame_len(s) {
        Some(n) => if 0 < n <= s.len() {
            seq![s.take(n as int)] + frames_of(s.skip(n as int))
        } else {
            seq![]
        },
        None => seq![],
    }
}

/// What is left of `s` once its whole frames are taken.
pub open spec fn rest_of(s: Seq<u8>) -> Seq<u8>
    decreases s.len(),
{
    match frame_len(s) {
        Some(n) => if 0 < n <= s.len() {
            rest_of(s.skip(n as int))
        } else {
            s
        },
        None => s,
    }
}

/// The contents of a list of frames.
pub open spec fn frame_views(v: Seq<Vec<u8>>) -> Seq<Seq<u8>> {
    v.map_values(|f: Vec<u8>| f@)
}

/// Feeding a stream in two pieces, the second after what the first left over,
/// gives the same frames, in the same order, and the same remainder as feeding
/// it whole. Applied piece by piece, a stream fed one byte at a time is framed
/// as it is when fed all at once.
pub proof fn lemma_framing_split(s: Seq<u8>, t: Seq<u8>)
    ensures
        frames_of(s) + frames_of(rest_of(s) + t) == frames_of(s + t),
        rest_of(rest_of(s) + t) == rest_of(s + t),
    decreases s.len(),
{
    match frame_len(s) {
        Some(n) => {
            let st = s + t;
            assert(st.subrange(0, 19) =~= s.subrange(0, 19));
            assert(st[16] == s[16] && st[17] == s[17]);
            assert(frame_len(st) == Some(n));
            assert(st.take(n as int) =~= s.take(n as int));
            assert(st.skip(n as int) =~= s.skip(n as int) + t);
            lemma_framing_split(s.skip(n as int), t);
            assert(frames_of(s) =~= seq![s.take(n as int)] + frames_of(s.skip(n as int)));
            assert(seq![s.take(n as int)] + frames_of(s.skip(n as int)) + frames_of(rest_of(s) + t)
                =~= seq![s.take(n as int)] + (frames_of(s.skip(n as int)) + frames_of(rest_of(s) + t)));
        },
        None => {
            assert(frames_of(s) + frames_of(s + t) =~= frames_of(s + t));
        },
    }
}

/// The frames returned by feeding `chunks` one after another to a framer that
/// holds `pending`.
pub open spec fn frames_fed(pending: Seq<u8>, chunks: Seq<Seq<u8>>) -> Seq<Seq<u8>>
    decreases chunks.len(),
{
    if chunks.len() == 0 {
        seq![]
    } else {
        frames_of(pending + chunks[0]) + frames_fed(rest_of(pending + chunks[0]), chunks.skip(1))
    }
}

/// However a stream is cut into pieces, down to single bytes, feeding the pieces
/// in turn yields the frames that feeding the whole stream at once yields. The
/// framer starts from bytes that hold no whole frame, as it always holds.
pub proof fn lemma_framing_chunks(pending: Seq<u8>, chunks: Seq<Seq<u8>>)
    requires
        frames_of(pending) == Seq::<Seq<u8>>::empty(),
    ensures
        frames_fed(pending, chunks) == frames_of(pending + chunks.flatten()),
    decreases chunks.len(),
{
    if chunks.len() == 0 {
        assert(pending + chunks.flatten() =~= pending);
    } else {
        let s = pending + chunks[0];
        let tail = chunks.skip(1);
        lemma_no_frames_in_rest(s);
        lemma_framing_chunks(rest_of(s), tail);
        lemma_framing_split(s, tail.flatten());
        assert(chunks.flatten() =~= chunks[0] + tail.flatten()) by {
            assert(chunks.drop_first() =~= tail);
        }
        assert(s + tail.flatten() =~= pending + chunks.flatten());
    }
}

/// What is left over holds no whole frame.
pub proof fn lemma_no_frames_in_rest(s: Seq<u8>)
    ensures
        frames_of(rest_of(s)) == Seq::<Seq<u8>>::empty(),
    decreases s.len(),
{
    if let Some(n) = frame_len(s) {
        if 0 < n <= s.len() {
            lemma_no_frames_in_rest(s.skip(n as int));
            return;
        }
    }
}

/// Cuts the whole frames off the front of `buf`. Returns them and the number
/// of bytes they took; the rest is an incomplete frame that awaits more bytes.
pub fn split_frames(buf: &[u8]) -> (r: (Vec<Vec<u8>>, usize))
    ensures
        frame_views(r.0@) == frames_of(buf@),
        r.1 <= buf@.len(),
        buf@.skip(r.1 as int) == rest_of(buf@),
{
    let mut frames: Vec<Vec<u8>> = Vec::new();
    let mut i: usize = 0;
    assert(buf@.skip(0) =~= buf@);
    assert(frame_views(frames@) + frames_of(buf@) =~= frames_of(buf@));
    loop
        invariant
            i <= buf@.len(),
            frame_views(frames@) + frames_of(buf@.skip(i as int)) == frames_of(buf@),
            rest_of(buf@.skip(i as int)) == rest_of(buf@),
        ensures
            i <= buf@.len(),
            frame_views(frames@) + frames_of(buf@.skip(i as int)) == frames_of(buf@),
            rest_of(buf@.skip(i as int)) == rest_of(buf@),
            frame_len(buf@.skip(i as int)) is None,
        decreases buf@.len() - i,
    {
        let ghost s = buf@.skip(i as int);
        if buf.len() - i < BGP_HEADER_SIZE {
            break;
        }
        let n = message_length(&buf[i..buf.len()]);
        assert(buf@.subrange(i as int, buf@.len() as int) =~= s);
        if n < BGP_HEADER_SIZE || n > BGP_MAX_MSG_SIZE || buf.len() - i < n {
            break;
        }
        let frame = copy_range(buf, i, i + n);
        proof {
            assert(frame_len(s) == Some(n as nat));
            assert(frame@ =~= s.take(n as int));
            assert(s.skip(n as int) =~= buf@.skip(i + n));
            assert(frame_views(frames@.push(frame)) =~= frame_views(frames@) + seq![frame@]);
            assert(frame_views(frames@) + seq![frame@] + frames_of(buf@.skip(i + n)) =~= frame_views(
                frames@,
            ) + (seq![frame@] + frames_of(buf@.skip(i + n))));
        }
        frames.push(frame);
        i = i + n;
    }
    proof {
        assert(frame_views(frames@) + seq![] =~= frame_views(frames@));
    }
    (frames, i)
}

/// Bytes received on one connection that do not yet make up a whole frame.
pub struct Framer {
    pending: Vec<u8>,
}

impl View for Framer {
    type V = Seq<u8>;

    closed spec fn view(&self) -> Seq<u8> {
        self.pending@
    }
}

impl Framer {
    /// A framer holding no bytes.
    pub fn new() -> (r: Framer)
        ensures
            r@ == Seq::<u8>::empty(),
    {
        Framer { pending: Vec::new() }
    }

    /// The bytes held back, awaiting the rest of their frame.
    pub fn pending(&self) -> (r: &[u8])
        ensures
            r@ == self@,
    {
        self.pending.as_slice()
    }

    /// Takes newly received bytes and returns the frames they complete, in order.
    /// What does not yet make up a whole frame is kept for the next call.
    pub fn feed(&mut self, bytes: &[u8]) -> (r: Vec<Vec<u8>>)
        ensures
            frame_views(r@) == frames_of(old(self)@ + bytes@),
            final(self)@ == rest_of(old(self)@ + bytes@),
            frames_of(final(self)@) == Seq::<Seq<u8>>::empty(),
    {
        push_all(&mut self.pending, bytes);
        let (frames, used) = split_frames(self.pending.as_slice());
        let rest = copy_range(self.pending.as_slice(), used, self.pending.len());
        assert(rest@ =~= self.pending@.skip(used as int));
        self.pending = rest;
        proof {
            lemma_no_frames_in_rest(old(self)@ + bytes@);
        }
        frames
    }
}

} // verus!

//! Incremental recovery of frame boundaries from a byte stream that arrives
//! in pieces of arbitrary size.

use vstd::prelude::*;
use crate::frame::{decode_length, frame_end, frame_of, has_frame, le_u32, lemma_frame_of, MAX_PAYLOAD};

verus! {

/// What one delivery of bytes does to the bytes pending since the last frame
/// boundary: how many of the delivered bytes are taken, the payload that is
/// completed (if any), and what is pending afterwards.
pub open spec fn feed(pending: Seq<u8>, input: Seq<u8>) -> (nat, Option<Seq<u8>>, Seq<u8>) {
    let s = pending + input;
    if has_frame(s) {
        ((frame_end(s) - pending.len()) as nat, Some(s.subrange(4, frame_end(s))), Seq::empty())
    } else {
        (input.len(), None, s)
    }
}

/// How many more bytes the current target (length prefix or body) needs.
pub open spec fn wanted_of(pending: Seq<u8>) -> int {
    if pending.len() < 4 {
        4 - pending.len()
    } else {
        frame_end(pending) - pending.len()
    }
}

/// Delivers `chunks` one after another, starting from `pending`: the bytes
/// pending at the end, the payloads completed in order, and whether every
/// delivery was taken whole.
pub open spec fn deliver_all(pending: Seq<u8>, chunks: Seq<Seq<u8>>) -> (Seq<u8>, Seq<Seq<u8>>, bool)
    decreases chunks.len(),
{
    if chunks.len() == 0 {
        (pending, Seq::empty(), true)
    } else {
        let step = feed(pending, chunks[0]);
        let later = deliver_all(step.2, chunks.drop_first());
        let payloads = match step.1 {
            Some(x) => seq![x] + later.1,
            None => later.1,
        };
        (later.0, payloads, later.2 && step.0 == chunks[0].len())
    }
}

proof fn lemma_empty_deliveries(chunks: Seq<Seq<u8>>)
    requires
        chunks.flatten().len() == 0,
    ensures
        deliver_all(Seq::empty(), chunks) == (Seq::<u8>::empty(), Seq::<Seq<u8>>::empty(), true),
    decreases chunks.len(),
{
    if chunks.len() > 0 {
        assert(Seq::<u8>::empty() + chunks[0] =~= chunks[0]);
        lemma_empty_deliveries(chunks.drop_first());
    }
}

proof fn lemma_rest_of_frame(f: Seq<u8>, payload: Seq<u8>, i: int, chunks: Seq<Seq<u8>>)
    requires
        payload.len() <= MAX_PAYLOAD,
        f == frame_of(payload),
        0 <= i < f.len(),
        chunks.flatten() == f.skip(i),
    ensures
        deliver_all(f.take(i), chunks) == (Seq::<u8>::empty(), seq![payload], true),
    decreases chunks.len(),
{
    lemma_frame_of(payload);
    if chunks.len() == 0 {
        assert(f.skip(i).len() > 0);
    } else {
        let c = chunks[0];
        let k = i + c.len();
        let rest = chunks.drop_first().flatten();
        assert(chunks.flatten() == c + rest);
        assert(k <= f.len());
        assert forall|j: int| 0 <= j < c.len() implies c[j] == f[i + j] by {
            assert((c + rest)[j] == f.skip(i)[j]);
        }
        assert forall|j: int| 0 <= j < rest.len() implies rest[j] == f[k + j] by {
            assert((c + rest)[c.len() + j] == f.skip(i)[c.len() + j]);
        }
        assert(c =~= f.subrange(i, k));
        let s = f.take(i) + c;
        assert(s =~= f.take(k));
        if s.len() >= 4 {
            assert(s.take(4) =~= f.take(4));
        }
        if k < f.len() {
            assert(!has_frame(s));
            assert(chunks.drop_first().flatten() =~= f.skip(k));
            lemma_rest_of_frame(f, payload, k, chunks.drop_first());
        } else {
            assert(s =~= f);
            assert(chunks.drop_first().flatten().len() == 0);
            lemma_empty_deliveries(chunks.drop_first());
            assert(seq![payload] + Seq::<Seq<u8>>::empty() =~= seq![payload]);
        }
    }
}

/// However a frame is split into deliveries (of any sizes, with empty
/// "no data yet" deliveries anywhere between them), reassembly takes every
/// delivery whole and yields the framed payload exactly once, with nothing
/// left pending.
pub proof fn lemma_any_split_yields_payload_once(payload: Seq<u8>, chunks: Seq<Seq<u8>>)
    requires
        payload.len() <= MAX_PAYLOAD,
        chunks.flatten() == frame_of(payload),
    ensures
        deliver_all(Seq::empty(), chunks) == (Seq::<u8>::empty(), seq![payload], true),
{
    let f = frame_of(payload);
    assert(f.skip(0) =~= f);
    assert(f.take(0) =~= Seq::<u8>::empty());
    lemma_rest_of_frame(f, payload, 0, chunks);
}

/// Deliveries that together hold fewer than four bytes never complete a
/// payload: each is taken whole and only adds to what is pending.
pub proof fn lemma_partial_prefix_yields_nothing(pending: Seq<u8>, chunks: Seq<Seq<u8>>)
    requires
        pending.len() + chunks.flatten().len() < 4,
    ensures
        deliver_all(pending, chunks) == (pending + chunks.flatten(), Seq::<Seq<u8>>::empty(), true),
    decreases chunks.len(),
{
    if chunks.len() == 0 {
        assert(pending + chunks.flatten() =~= pending);
    } else {
        let c = chunks[0];
        assert(chunks.flatten() == c + chunks.drop_first().flatten());
        lemma_partial_prefix_yields_nothing(pending + c, chunks.drop_first());
        assert(pending + c + chunks.drop_first().flatten() =~= pending + chunks.flatten());
    }
}

/// Two whole frames delivered back to back in one read come out as two
/// payloads, in order, over two calls: the first call takes exactly the
/// first frame and leaves the second for the next.
pub proof fn lemma_two_frames_in_order(x: Seq<u8>, y: Seq<u8>)
    requires
        x.len() <= MAX_PAYLOAD,
        y.len() <= MAX_PAYLOAD,
    ensures
        ({
            let both = frame_of(x) + frame_of(y);
            let first = feed(Seq::empty(), both);
            &&& first == (frame_of(x).len(), Some(x), Seq::<u8>::empty())
            &&& feed(Seq::empty(), both.skip(first.0 as int)) == (
            frame_of(y).len(),
            Some(y),
            Seq::<u8>::empty(),
            )
        }),
{
    lemma_frame_of(x);
    lemma_frame_of(y);
    let f1 = frame_of(x);
    let f2 = frame_of(y);
    let both = f1 + f2;
    let s = Seq::<u8>::empty() + both;
    assert(s =~= both);
    assert(both.take(4) =~= f1.take(4));
    assert(both.subrange(4, f1.len() as int) =~= f1.subrange(4, f1.len() as int));
    assert(both.skip(f1.len() as int) =~= f2);
    assert(Seq::<u8>::empty() + f2 =~= f2);
}

/// The bytes of each vector, in order.
pub open spec fn views(vs: Seq<Vec<u8>>) -> Seq<Seq<u8>> {
    vs.map_values(|v: Vec<u8>| v@)
}

/// Reassembly state of one connection: the length prefix is staged in a
/// fixed four-byte area, then the body is collected.
pub struct FrameBuffer {
    reading_length: bool,
    offset: usize,
    length: [u8; 4],
    body_len: u32,
    buffer: Vec<u8>,
}

impl View for FrameBuffer {
    type V = Seq<u8>;

    /// The bytes received since the last frame boundary.
    closed spec fn view(&self) -> Seq<u8> {
        if self.reading_length {
            self.length@.take(self.offset as int)
        } else {
            self.length@ + self.buffer@
        }
    }
}

impl FrameBuffer {
    /// The offset never passes the end of the target being filled, and a
    /// target that has been filled has already been handed on.
    pub closed spec fn wf(&self) -> bool {
        &&& self.length@.len() == 4
        &&& if self.reading_length {
            self.offset < 4 && self.buffer@.len() == 0
        } else {
            &&& self.body_len as nat == le_u32(self.length@)
            &&& self.offset == self.buffer@.len()
            &&& self.offset < self.body_len
        }
    }

    /// A buffer that expects the length prefix of a first frame.
    pub fn new() -> (r: FrameBuffer)
        ensures
            r.wf(),
            r@ == Seq::<u8>::empty(),
    {
        let r = FrameBuffer {
            reading_length: true,
            offset: 0,
            length: [0u8; 4],
            body_len: 0,
            buffer: Vec::new(),
        };
        assert(r@ =~= Seq::<u8>::empty());
        r
    }

    /// Whether the next bytes belong to a length prefix.
    pub fn is_reading_length(&self) -> (r: bool)
        requires
            self.wf(),
        ensures
            r == (self@.len() < 4),
    {
        self.reading_length
    }

    /// How many bytes complete the current target; a read of at most this
    /// many bytes is always taken whole.
    pub fn wanted(&self) -> (r: usize)
        requires
            self.wf(),
        ensures
            r as int == wanted_of(self@),
            r >= 1,
    {
        if self.reading_length {
            4 - self.offset
        } else {
            assert(self@.take(4) =~= self.length@);
            self.body_len as usize - self.offset
        }
    }

    /// Takes bytes from the front of `input` until a frame is complete or
    /// the input runs out. Returns how many bytes were taken and the payload
    /// of the frame completed, or `None` when more bytes are needed (the
    /// would-block case); partial progress is kept for the next call.
    pub fn receive_raw(&mut self, input: &[u8]) -> (r: (usize, Option<Vec<u8>>))
        requires
            old(self).wf(),
        ensures
            final(self).wf(),
            ({
                let (n, p, rest) = feed(old(self)@, input@);
                &&& r.0 as nat == n
                &&& r.1 matches Some(v) ==> p == Some(v@)
                &&& r.1 is None ==> p is None
                &&& final(self)@ == rest
            }),
    {
        let ghost pending = self@;
        let ghost s = pending + input@;
        let mut pos: usize = 0;
        if self.reading_length {
            while self.offset < 4 && pos < input.len()
                invariant
                    s == pending + input@,
                    self.reading_length,
                    self.length@.len() == 4,
                    self.buffer@.len() == 0,
                    self.offset <= 4,
                    pos <= input@.len(),
                    self.offset == pending.len() + pos,
                    self.length@.take(self.offset as int) == s.take(self.offset as int),
                decreases input@.len() - pos,
            {
                let ghost before = self.length@;
                assert(s[self.offset as int] == input@[pos as int]);
                self.length[self.offset] = input[pos];
                assert(self.length@ =~= before.update(self.offset as int, input@[pos as int]));
                self.offset = self.offset + 1;
                pos = pos + 1;
                assert(self.length@.take(self.offset as int) =~= s.take(self.offset as int));
            }
            if self.offset < 4 {
                assert(pos == input@.len());
                assert(s.take(self.offset as int) =~= s);
                return (pos, None);
            }
            self.body_len = decode_length(&self.length);
            self.reading_length = false;
            self.offset = 0;
            self.buffer = Vec::new();
            assert(self.length@ =~= s.take(4));
            assert(self.length@ + self.buffer@ =~= s.take(4));
        } else {
            assert(self.length@ =~= s.take(4));
            assert(self.length@ + self.buffer@ =~= s.take(pending.len() as int));
        }
        while self.offset < self.body_len as usize && pos < input.len()
            invariant
                s == pending + input@,
                !self.reading_length,
                self.length@.len() == 4,
                self.length@ == s.take(4),
                self.body_len as nat == le_u32(self.length@),
                self.offset == self.buffer@.len(),
                self.offset <= self.body_len,
                pos <= input@.len(),
                pending.len() + pos == 4 + self.offset,
                self.length@ + self.buffer@ == s.take(4 + self.offset),
            decreases input@.len() - pos,
        {
            assert(s[4 + self.offset] == input@[pos as int]);
            self.buffer.push(input[pos]);
            self.offset = self.offset + 1;
            pos = pos + 1;
            assert(self.length@ + self.buffer@ =~= s.take(4 + self.offset));
        }
        if self.offset < self.body_len as usize {
            assert(pos == input@.len());
            assert(s.take(4 + self.offset) =~= s);
            return (pos, None);
        }
        self.reading_length = true;
        self.offset = 0;
        let ghost whole = self.length@ + self.buffer@;
        assert(frame_end(s) == 4 + self.body_len);
        let mut payload: Vec<u8> = Vec::new();
        std::mem::swap(&mut self.buffer, &mut payload);
        assert forall|i: int| 0 <= i < payload@.len() implies payload@[i] == s[4 + i] by {
            assert(whole[4 + i] == s.take(4 + self.body_len)[4 + i]);
        }
        assert(payload@ =~= s.subrange(4, frame_end(s)));
        assert(self@ =~= Seq::<u8>::empty());
        (pos, Some(payload))
    }
    /// Delivers `chunks` one after another (an empty one stands for a read
    /// that found no data) and returns the payloads completed, in order,
    /// and whether every delivery was taken whole.
    pub fn receive_chunks(&mut self, chunks: &[Vec<u8>]) -> (r: (Vec<Vec<u8>>, bool))
        requires
            old(self).wf(),
        ensures
            final(self).wf(),
            ({
                let out = deliver_all(old(self)@, views(chunks@));
                &&& views(r.0@) == out.1
                &&& r.1 == out.2
                &&& final(self)@ == out.0
            }),
    {
        let ghost cs = views(chunks@);
        let ghost out = deliver_all(self@, cs);
        let mut payloads: Vec<Vec<u8>> = Vec::new();
        let mut whole = true;
        let mut i: usize = 0;
        assert(cs.skip(0) =~= cs);
        assert(views(payloads@) + out.1 =~= out.1);
        while i < chunks.len()
            invariant
                self.wf(),
                cs == views(chunks@),
                i <= chunks@.len(),
                deliver_all(self@, cs.skip(i as int)).0 == out.0,
                views(payloads@) + deliver_all(self@, cs.skip(i as int)).1 == out.1,
                (whole && deliver_all(self@, cs.skip(i as int)).2) == out.2,
            decreases chunks@.len() - i,
        {
            let ghost pending = self@;
            let ghost before = views(payloads@);
            let chunk = chunks[i].as_slice();
            assert(chunk@ == cs[i as int]);
            let (n, p) = self.receive_raw(chunk);
            let ghost rest = cs.skip(i as int);
            assert(rest.drop_first() =~= cs.skip(i + 1));
            assert(rest[0] == cs[i as int]);
            whole = whole && n == chunk.len();
            match p {
                Some(v) => {
                    payloads.push(v);
                    assert(views(payloads@) =~= before.push(v@));
                    assert(before.push(v@) + deliver_all(self@, cs.skip(i + 1)).1 =~= before + (seq![v@]
                        + deliver_all(self@, cs.skip(i + 1)).1));
                },
                None => {
                    assert(views(payloads@) =~= before);
                },
            }
            i = i + 1;
        }
        assert(cs.skip(i as int) =~= Seq::<Seq<u8>>::empty());
        assert(views(payloads@) + Seq::<Seq<u8>>::empty() =~= views(payloads@));
        (payloads, whole)
    }
}

} // verus!

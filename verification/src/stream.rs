//! One direction of a connected byte stream, modeled as the bytes in
//! flight: writes append at one end, reads drain from the other, so the
//! bytes come out byte-for-byte in the order they went in, however the
//! traffic is split into partial read and write calls.

use vstd::prelude::*;

verus! {

/// How many bytes one read call moves: the caller's limit, or everything
/// available if that is less.
pub open spec fn chunk_len(available: int, max: int) -> int {
    if max <= available {
        max
    } else {
        available
    }
}

/// One direction of a connected stream: the bytes written but not yet read.
pub struct StreamBuffer {
    data: Vec<u8>,
}

impl StreamBuffer {
    /// The bytes in flight, oldest first.
    pub closed spec fn buffered(&self) -> Seq<u8> {
        self.data@
    }

    /// An empty direction: nothing in flight.
    pub fn new() -> (r: Self)
        ensures
            r.buffered() == Seq::<u8>::empty(),
    {
        StreamBuffer { data: Vec::new() }
    }

    /// Whether a read would block right now.
    pub fn is_empty(&self) -> (r: bool)
        ensures
            r == (self.buffered().len() == 0),
    {
        self.data.len() == 0
    }

    /// Write one chunk: every byte of it goes in flight, after what is
    /// already there.
    pub fn write_bytes(&mut self, chunk: &Vec<u8>)
        ensures
            final(self).buffered() == old(self).buffered() + chunk@,
    {
        let mut i: usize = 0;
        while i < chunk.len()
            invariant
                i <= chunk@.len(),
                self.data@ == old(self).data@ + chunk@.take(i as int),
            decreases chunk@.len() - i,
        {
            self.data.push(chunk[i]);
            proof {
                assert(old(self).data@ + chunk@.take(i as int + 1) =~= (old(self).data@
                    + chunk@.take(i as int)).push(chunk@[i as int]));
            }
            i = i + 1;
        }
        proof {
            assert(chunk@.take(chunk@.len() as int) =~= chunk@);
        }
    }

    /// Read up to `max` bytes: the oldest bytes in flight at the moment of
    /// the call, exactly, and they leave the stream.
    pub fn read_bytes(&mut self, max: usize) -> (r: Vec<u8>)
        ensures
            r@ == old(self).buffered().take(
                chunk_len(old(self).buffered().len() as int, max as int),
            ),
            final(self).buffered() == old(self).buffered().skip(
                chunk_len(old(self).buffered().len() as int, max as int),
            ),
    {
        let n: usize = if max <= self.data.len() {
            max
        } else {
            self.data.len()
        };
        let mut out: Vec<u8> = Vec::new();
        let mut i: usize = 0;
        while i < n
            invariant
                i <= n,
                n <= self.data@.len(),
                self.data@ == old(self).data@,
                out@ == self.data@.take(i as int),
            decreases n - i,
        {
            out.push(self.data[i]);
            proof {
                assert(self.data@.take(i as int + 1) =~= self.data@.take(i as int).push(
                    self.data@[i as int],
                ));
            }
            i = i + 1;
        }
        let mut rest: Vec<u8> = Vec::new();
        let mut j: usize = n;
        while j < self.data.len()
            invariant
                n <= j <= self.data@.len(),
                self.data@ == old(self).data@,
                rest@ == self.data@.subrange(n as int, j as int),
            decreases self.data@.len() - j,
        {
            rest.push(self.data[j]);
            proof {
                assert(self.data@.subrange(n as int, j as int + 1) =~= self.data@.subrange(
                    n as int,
                    j as int,
                ).push(self.data@[j as int]));
            }
            j = j + 1;
        }
        self.data = rest;
        out
    }

    /// One suspendable read attempt: with nothing in flight it would block
    /// (the suspension signal); otherwise it moves at least one byte, and
    /// exactly the oldest bytes present at the moment of this call.
    pub fn try_read(&mut self, max: usize) -> (r: Option<Vec<u8>>)
        requires
            max >= 1,
        ensures
            old(self).buffered().len() == 0 ==> r is None && final(self).buffered() == old(
                self,
            ).buffered(),
            old(self).buffered().len() > 0 ==> ({
                let n = chunk_len(old(self).buffered().len() as int, max as int);
                r matches Some(bytes) && bytes@ == old(self).buffered().take(n) && bytes@.len() > 0
                    && final(self).buffered() == old(self).buffered().skip(n)
            }),
    {
        if self.data.len() == 0 {
            None
        } else {
            Some(self.read_bytes(max))
        }
    }
}

/// The bytes several write calls put in flight, in call order.
pub open spec fn concat_chunks(cs: Seq<Seq<u8>>) -> Seq<u8>
    decreases cs.len(),
{
    if cs.len() == 0 {
        Seq::<u8>::empty()
    } else {
        concat_chunks(cs.drop_last()) + cs.last()
    }
}

/// The pieces a byte sequence falls into when cut at the given ascending
/// cut points: what a series of partial reads returns, one piece per call.
pub open spec fn pieces(s: Seq<u8>, cuts: Seq<int>) -> Seq<Seq<u8>> {
    Seq::new((cuts.len() - 1) as nat, |i: int| s.subrange(cuts[i], cuts[i + 1]))
}

/// Round trip: however a byte sequence is cut into successive pieces, and
/// so however the traffic is split into partial read calls, the pieces
/// concatenate back to the sequence, byte-for-byte and in order.
pub proof fn lemma_round_trip(s: Seq<u8>, cuts: Seq<int>)
    requires
        cuts.len() >= 1,
        cuts[0] == 0,
        cuts[cuts.len() - 1] == s.len(),
        forall|i: int, j: int| 0 <= i <= j < cuts.len() ==> #[trigger] cuts[i] <= #[trigger] cuts[j],
    ensures
        concat_chunks(pieces(s, cuts)) == s,
    decreases cuts.len(),
{
    let n = cuts.len() as int;
    if n == 1 {
        assert(pieces(s, cuts).len() == 0);
        assert(s.len() == 0);
        assert(concat_chunks(pieces(s, cuts)) =~= s);
    } else {
        let cuts2 = cuts.drop_last();
        let c = cuts[n - 2];
        assert(0 <= c <= s.len());
        let s2 = s.take(c);
        assert(cuts2[0] == cuts[0]);
        assert(cuts2[cuts2.len() - 1] == c);
        assert forall|i: int, j: int| 0 <= i <= j < cuts2.len() implies #[trigger] cuts2[i]
            <= #[trigger] cuts2[j] by {
            assert(cuts2[i] == cuts[i]);
            assert(cuts2[j] == cuts[j]);
        }
        lemma_round_trip(s2, cuts2);
        let ps = pieces(s, cuts);
        let ps2 = pieces(s2, cuts2);
        assert forall|i: int| 0 <= i < n - 2 implies #[trigger] ps.drop_last()[i] == ps2[i] by {
            assert(ps.drop_last()[i] == s.subrange(cuts[i], cuts[i + 1]));
            assert(cuts[i + 1] <= c);
            assert(s2.subrange(cuts[i], cuts[i + 1]) =~= s.subrange(cuts[i], cuts[i + 1]));
        }
        assert(ps.drop_last() =~= ps2);
        assert(concat_chunks(ps) == concat_chunks(ps.drop_last()) + ps.last());
        assert(ps.last() == s.subrange(c, s.len() as int));
        assert(concat_chunks(ps) == s2 + s.subrange(c, s.len() as int));
        assert(s2 + s.subrange(c, s.len() as int) =~= s);
    }
}

/// A suspended read resumes against the stream as it is at resume time: a
/// read that would have blocked on an empty stream, once bytes have
/// arrived, returns exactly those arrived bytes (up to its limit), not
/// whatever was observable at the original call.
pub proof fn lemma_resume_reads_current(arrived: Seq<u8>, max: int)
    requires
        arrived.len() <= max,
    ensures
        (Seq::<u8>::empty() + arrived).take(
            chunk_len((Seq::<u8>::empty() + arrived).len() as int, max),
        ) == arrived,
{
    assert(Seq::<u8>::empty() + arrived =~= arrived);
    assert(arrived.take(arrived.len() as int) =~= arrived);
}

} // verus!

use vstd::prelude::*;
use vstd::slice::slice_subrange;

verus! {

/// Walks a borrowed slice and hands out consecutive packets, each sized by
/// `get_size_func` applied to the part of the slice not yet handed out.
///
/// The splitter never copies: every packet and the remaining view borrow the
/// caller's slice. Once a pull yields no packet, no later pull yields one.
pub struct PacketIterator<'a, T, F> where F: Fn(&[T]) -> usize {
    buffer: &'a [T],
    get_size_func: F,
    exhausted: bool,
    input: Ghost<Seq<T>>,
    packets: Ghost<Seq<Seq<T>>>,
}

impl<'a, T, F> PacketIterator<'a, T, F> where F: Fn(&[T]) -> usize {
    /// The remaining view, as the sizing function receives it.
    pub closed spec fn rest_slice(&self) -> &'a [T] {
        self.buffer
    }

    /// The part of the input not yet handed out as a packet.
    pub open spec fn rest(&self) -> Seq<T> {
        self.rest_slice()@
    }

    /// The sizing function the splitter was built with.
    pub closed spec fn sizing(&self) -> F {
        self.get_size_func
    }

    /// Whether the splitter has stopped for good.
    pub closed spec fn is_exhausted(&self) -> bool {
        self.exhausted
    }

    /// The whole input the splitter was built over.
    pub closed spec fn input(&self) -> Seq<T> {
        self.input@
    }

    /// The packets handed out so far, in order.
    pub closed spec fn packets(&self) -> Seq<Seq<T>> {
        self.packets@
    }

    /// `n` is a length the sizing function may report for the remaining view.
    pub open spec fn reports_size(&self, n: usize) -> bool {
        self.sizing().ensures((self.rest_slice(),), n)
    }

    /// The sizing function accepts every view and answers each with one length.
    pub open spec fn sizing_is_total_and_deterministic(f: F) -> bool {
        &&& forall|s: &[T]| #[trigger] f.requires((s,))
        &&& forall|s: &[T], a: usize, b: usize|
            #[trigger] f.ensures((s,), a) && #[trigger] f.ensures((s,), b) ==> a == b
    }

    /// The packets handed out so far, followed by the remaining view, spell
    /// out the input; no packet is empty.
    pub closed spec fn wf(&self) -> bool {
        &&& Self::sizing_is_total_and_deterministic(self.get_size_func)
        &&& self.packets@.flatten() + self.buffer@ == self.input@
        &&& forall|i: int| 0 <= i < self.packets@.len() ==> #[trigger] self.packets@[i].len() > 0
    }

    /// Builds a splitter over `buffer` that sizes each packet with `protocol`.
    /// Nothing is examined until the first pull.
    pub fn new(buffer: &'a [T], protocol: F) -> (r: PacketIterator<'a, T, F>)
        requires
            Self::sizing_is_total_and_deterministic(protocol),
        ensures
            r.wf(),
            r.input() == buffer@,
            r.rest() == buffer@,
            r.rest_slice() == buffer,
            r.sizing() == protocol,
            r.packets() == Seq::<Seq<T>>::empty(),
            !r.is_exhausted(),
    {
        PacketIterator {
            buffer,
            get_size_func: protocol,
            exhausted: false,
            input: Ghost(buffer@),
            packets: Ghost(Seq::empty()),
        }
    }

    /// Pulls the next packet.
    ///
    /// A stopped splitter, or one whose remaining view is empty, yields
    /// nothing. Otherwise the sizing function is asked for the length `n` of
    /// the next packet: with `0 < n <= rest().len()` the first `n` elements
    /// are handed out and the view moves past them; any other `n` stops the
    /// splitter where it stands, and the elements left over are not handed out.
    pub fn next(&mut self) -> (r: Option<&'a [T]>)
        requires
            old(self).wf(),
        ensures
            final(self).wf(),
            final(self).input() == old(self).input(),
            final(self).sizing() == old(self).sizing(),
            old(self).is_exhausted() || old(self).rest().len() == 0 ==> r is None,
            r is None ==> final(self).is_exhausted(),
            r is None ==> final(self).rest() == old(self).rest(),
            r is None ==> final(self).packets() == old(self).packets(),
            !old(self).is_exhausted() && old(self).rest().len() > 0 ==> exists|n: usize|
                old(self).reports_size(n),
            !old(self).is_exhausted() && old(self).rest().len() > 0 ==> forall|n: usize|
                #[trigger] old(self).reports_size(n) ==> if n == 0 || n > old(self).rest().len() {
                    r is None
                } else {
                    &&& r matches Some(p)
                    &&& p@ == old(self).rest().take(n as int)
                    &&& final(self).rest() == old(self).rest().skip(n as int)
                    &&& final(self).packets() == old(self).packets().push(p@)
                    &&& !final(self).is_exhausted()
                },
    {
        let ghost start = *self;
        if self.exhausted || self.buffer.len() == 0 {
            self.exhausted = true;
            return None;
        }
        let next_packet_size = (self.get_size_func)(self.buffer);
        assert(start.reports_size(next_packet_size));
        if next_packet_size == 0 || next_packet_size > self.buffer.len() {
            self.exhausted = true;
            return None;
        }
        let next_packet = slice_subrange(self.buffer, 0, next_packet_size);
        let rest = slice_subrange(self.buffer, next_packet_size, self.buffer.len());
        proof {
            let done = self.packets@;
            done.lemma_flatten_push(next_packet@);
            assert(next_packet@ + rest@ =~= self.buffer@);
            assert(done.push(next_packet@).flatten() + rest@ =~= done.flatten() + self.buffer@);
        }
        self.packets = Ghost(self.packets@.push(next_packet@));
        self.buffer = rest;
        Some(next_packet)
    }

    /// The remaining view: after the last packet, an empty view means the
    /// input ended on a packet boundary, a non-empty one that the tail was
    /// cut short or not a packet.
    pub fn remaining(&self) -> (r: &'a [T])
        ensures
            r@ == self.rest(),
    {
        self.buffer
    }

    /// The packets handed out, joined in order, are a prefix of the input,
    /// and the remaining view is exactly what follows that prefix: packets
    /// neither overlap, nor skip, nor reorder elements, and none is empty.
    pub proof fn lemma_packets_cover_prefix(&self)
        requires
            self.wf(),
        ensures
            self.packets().flatten() == self.input().take(self.packets().flatten().len() as int),
            self.rest() == self.input().skip(self.packets().flatten().len() as int),
            forall|i: int| 0 <= i < self.packets().len() ==> #[trigger] self.packets()[i].len() > 0,
    {
        let joined = self.packets().flatten();
        assert(joined =~= self.input().take(joined.len() as int));
        assert(self.rest() =~= self.input().skip(joined.len() as int));
    }
}

} // verus!

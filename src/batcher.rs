use vstd::prelude::*;

verus! {

/// A frame-reusable list of instance records.
///
/// Records of the current frame are written at a cursor: over an old record
/// where one is stored, appended otherwise. `finish` cuts the stored list to
/// the records of the frame and starts the next frame, so storage is kept
/// across frames instead of being rebuilt.
pub struct InstanceStream<T> {
    items: Vec<T>,
    cursor: usize,
}

impl<T> InstanceStream<T> {
    /// What the backing list holds, including records left from a longer
    /// earlier frame.
    pub closed spec fn stored(&self) -> Seq<T> {
        self.items@
    }

    /// How many records the current frame has written.
    pub closed spec fn count(&self) -> nat {
        self.cursor as nat
    }

    pub open spec fn wf(&self) -> bool {
        self.count() <= self.stored().len()
    }

    /// The records of the current frame, in the order they were written.
    pub open spec fn frame(&self) -> Seq<T> {
        self.stored().take(self.count() as int)
    }

    pub fn new() -> (r: Self)
        ensures
            r.wf(),
            r.stored() == Seq::<T>::empty(),
            r.count() == 0,
    {
        InstanceStream { items: Vec::new(), cursor: 0 }
    }

    /// Writes one record of the current frame.
    pub fn record(&mut self, instance: T)
        requires
            old(self).wf(),
            old(self).count() < usize::MAX,
        ensures
            final(self).wf(),
            final(self).count() == old(self).count() + 1,
            final(self).frame() == old(self).frame().push(instance),
            old(self).count() < old(self).stored().len() ==> final(self).stored()
                == old(self).stored().update(old(self).count() as int, instance),
            old(self).count() == old(self).stored().len() ==> final(self).stored()
                == old(self).stored().push(instance),
    {
        if self.cursor < self.items.len() {
            self.items[self.cursor] = instance;
        } else {
            self.items.push(instance);
        }
        self.cursor = self.cursor + 1;
        assert(self.frame() =~= old(self).frame().push(instance));
    }

    /// Ends the frame: the stored list becomes exactly the frame's records and
    /// the next frame starts empty.
    pub fn finish(&mut self)
        requires
            old(self).wf(),
        ensures
            final(self).wf(),
            final(self).stored() == old(self).frame(),
            final(self).count() == 0,
    {
        self.items.truncate(self.cursor);
        self.cursor = 0;
    }

    /// The stored records; after `finish`, the records of the finished frame.
    pub fn instances(&self) -> (r: &[T])
        ensures
            r@ == self.stored(),
    {
        self.items.as_slice()
    }

    /// How many records the current frame has written so far.
    pub fn len(&self) -> (r: usize)
        ensures
            r == self.count(),
    {
        self.cursor
    }
}

/// A frame holds exactly as many records as were written since the last
/// `finish`, so after the next `finish` the stored list has that length.
pub proof fn lemma_frame_len<T>(s: &InstanceStream<T>)
    requires
        s.wf(),
    ensures
        s.frame().len() == s.count(),
{
}

/// Two instance streams, one for line records and one for circle records.
///
/// Order is kept within each kind, not across kinds.
pub struct ShapeBatcher<L, C> {
    pub lines: InstanceStream<L>,
    pub circles: InstanceStream<C>,
}

impl<L, C> ShapeBatcher<L, C> {
    pub open spec fn wf(&self) -> bool {
        self.lines.wf() && self.circles.wf()
    }

    pub fn new() -> (r: Self)
        ensures
            r.wf(),
            r.lines.stored() == Seq::<L>::empty(),
            r.lines.count() == 0,
            r.circles.stored() == Seq::<C>::empty(),
            r.circles.count() == 0,
    {
        ShapeBatcher { lines: InstanceStream::new(), circles: InstanceStream::new() }
    }

    /// Records one line instance of the current frame.
    pub fn draw_line(&mut self, instance: L)
        requires
            old(self).wf(),
            old(self).lines.count() < usize::MAX,
        ensures
            final(self).wf(),
            final(self).lines.frame() == old(self).lines.frame().push(instance),
            final(self).lines.count() == old(self).lines.count() + 1,
            final(self).circles == old(self).circles,
    {
        self.lines.record(instance);
    }

    /// Records one circle instance of the current frame.
    pub fn draw_circle(&mut self, instance: C)
        requires
            old(self).wf(),
            old(self).circles.count() < usize::MAX,
        ensures
            final(self).wf(),
            final(self).circles.frame() == old(self).circles.frame().push(instance),
            final(self).circles.count() == old(self).circles.count() + 1,
            final(self).lines == old(self).lines,
    {
        self.circles.record(instance);
    }

    /// Ends the frame for both streams.
    pub fn finish(&mut self)
        requires
            old(self).wf(),
        ensures
            final(self).wf(),
            final(self).lines.stored() == old(self).lines.frame(),
            final(self).lines.count() == 0,
            final(self).circles.stored() == old(self).circles.frame(),
            final(self).circles.count() == 0,
    {
        self.lines.finish();
        self.circles.finish();
    }
}

} // verus!
